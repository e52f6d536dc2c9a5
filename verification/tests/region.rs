use pagemem::mmap::PageMemory;
use pagemem::OwnedArray;
use pagemem::TypedArray;

#[test]
fn one_element_of_eight_bytes() {
    let mut pm = PageMemory::new();
    let page = pm.page_size();
    let a = TypedArray::<u64>::new(&mut pm, 1);
    assert_eq!(a.len(), 1);
    if page == 4096 {
        assert_eq!(a.mapped_bytes(), 4096);
    }
    if page >= 8 {
        assert_eq!(a.mapped_bytes(), page);
    }
    assert_eq!(a.get(0), a.base_address());
    a.destroy(&mut pm);
}

#[test]
fn five_hundred_thirteen_elements_take_two_pages() {
    let mut pm = PageMemory::new();
    let page = pm.page_size();
    let a = TypedArray::<u64>::new(&mut pm, 513);
    assert_eq!(a.len(), 513);
    if page == 4096 {
        assert_eq!(a.mapped_bytes(), 8192);
    }
    a.destroy(&mut pm);
}

#[test]
fn mapped_bytes_is_least_covering_page_multiple() {
    let mut pm = PageMemory::new();
    let page = pm.page_size();
    for count in [1usize, 7, 511, 512, 513, 1024, 4097] {
        let a = TypedArray::<u32>::new(&mut pm, count);
        let bytes = count * 4;
        let mapped = a.mapped_bytes();
        assert_eq!(mapped % page, 0);
        assert!(mapped >= bytes);
        assert!(mapped - page < bytes);
        a.destroy(&mut pm);
    }
}

#[test]
fn exact_page_multiple_allocates_no_extra_page() {
    let mut pm = PageMemory::new();
    let page = pm.page_size();
    assert_eq!(page % 8, 0);
    let count = page / 8;
    let a = TypedArray::<u64>::new(&mut pm, count);
    assert_eq!(a.mapped_bytes(), page);
    a.destroy(&mut pm);
}

#[test]
fn zero_elements_still_a_region() {
    let mut pm = PageMemory::new();
    let page = pm.page_size();
    let a = TypedArray::<u64>::new(&mut pm, 0);
    assert_eq!(a.len(), 0);
    assert_eq!(a.mapped_bytes(), page);
    assert!(a.base_address() >= 1);
    let mut it = a.iter();
    assert!(it.next().is_none());
    a.destroy(&mut pm);
}

#[test]
fn zero_sized_elements_still_a_region() {
    let mut pm = PageMemory::new();
    let page = pm.page_size();
    let a = TypedArray::<()>::new(&mut pm, 16);
    assert_eq!(a.len(), 16);
    assert_eq!(a.mapped_bytes(), page);
    assert!(a.base_address() >= 1);
    a.destroy(&mut pm);
}

#[test]
fn iteration_yields_each_address_in_order() {
    let mut pm = PageMemory::new();
    let a = TypedArray::<u64>::new(&mut pm, 10);
    let mut seen: Vec<usize> = Vec::new();
    let mut it = a.iter();
    while let Some(p) = it.next() {
        seen.push(p);
    }
    assert_eq!(seen.len(), 10);
    for i in 0usize..10 {
        assert_eq!(seen[i], a.base_address() + i * 8);
        assert_eq!(seen[i], a.get(i));
        if i > 0 {
            assert!(seen[i] > seen[i - 1]);
        }
    }
    a.destroy(&mut pm);
}

#[test]
fn iteration_restarts_identically() {
    let mut pm = PageMemory::new();
    let a = TypedArray::<u16>::new(&mut pm, 9);
    let mut first: Vec<usize> = Vec::new();
    let mut it = a.iter();
    while let Some(p) = it.next() {
        first.push(p);
    }
    let mut second: Vec<usize> = Vec::new();
    let mut it = a.iter();
    while let Some(p) = it.next() {
        second.push(p);
    }
    assert_eq!(first, second);
    assert_eq!(first.len(), 9);
    a.destroy(&mut pm);
}

#[test]
fn destroyed_region_is_never_reused() {
    let mut pm = PageMemory::new();
    let a = TypedArray::<u64>::new(&mut pm, 4);
    let base = a.base_address();
    let mapped = a.mapped_bytes();
    a.destroy(&mut pm);
    let b = TypedArray::<u64>::new(&mut pm, 4);
    assert!(b.base_address() >= base + mapped);
    b.destroy(&mut pm);
}

#[test]
fn owned_array_forwards_access() {
    let mut pm = PageMemory::new();
    let a = OwnedArray::<u64>::new(&mut pm, 3);
    assert_eq!(a.len(), 3);
    assert_eq!(a.get(0), a.base_address());
    assert_eq!(a.get(2), a.base_address() + 16);
    let mut it = a.iter();
    assert_eq!(it.next(), Some(a.base_address()));
    a.release(&mut pm);
}

fn sum_of_first_addresses(pm: &mut PageMemory, early: bool) -> usize {
    let a = OwnedArray::<u64>::new(pm, 2);
    if early {
        let r = a.get(0);
        a.release(pm);
        return r;
    }
    let r = a.get(0) + a.get(1);
    a.release(pm);
    r
}

#[test]
fn owned_array_releases_once_on_every_path() {
    let mut pm = PageMemory::new();
    let x = sum_of_first_addresses(&mut pm, true);
    let y = sum_of_first_addresses(&mut pm, false);
    assert!(y > x);
    let a = OwnedArray::<u64>::new(&mut pm, 2);
    let b = a.base_address();
    a.release(&mut pm);
    let c = OwnedArray::<u64>::new(&mut pm, 2);
    assert!(c.base_address() > b);
    c.release(&mut pm);
}
