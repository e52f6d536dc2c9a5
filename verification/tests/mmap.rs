use pagemem::mmap::page_size;
use pagemem::mmap::PageMemory;

#[test]
fn page_size_is_positive_and_shared() {
    assert!(page_size() >= 1);
    let pm = PageMemory::new();
    assert_eq!(pm.page_size(), page_size());
}

#[test]
fn map_yields_fresh_aligned_regions() {
    let mut pm = PageMemory::new();
    let page = pm.page_size();
    let a = pm.map(page);
    assert!(a >= 1);
    assert_eq!(a % page, 0);
    let b = pm.map(2 * page);
    assert_eq!(b % page, 0);
    assert!(b >= a + page);
    pm.unmap(a, page);
    pm.unmap(b, 2 * page);
}

#[test]
fn fallible_map_absent_on_unsatisfiable_request() {
    let mut pm = PageMemory::new();
    let page = pm.page_size();
    let huge = usize::MAX - (usize::MAX % page);
    assert!(pm.fallible_map(huge).is_none());
    assert!(pm.fallible_map(page).is_some());
}

#[test]
fn fallible_map_leaves_service_usable_after_failure() {
    let mut pm = PageMemory::new();
    let page = pm.page_size();
    let huge = usize::MAX - (usize::MAX % page);
    assert!(pm.fallible_map(huge).is_none());
    let a = pm.map(page);
    assert_eq!(a % page, 0);
    pm.unmap(a, page);
}

#[test]
fn commit_and_uncommit_accept_live_subranges() {
    let mut pm = PageMemory::new();
    let page = pm.page_size();
    let a = pm.map(2 * page);
    pm.commit(a, 2 * page);
    pm.uncommit(a + page, page);
    pm.unmap(a, 2 * page);
}

#[test]
fn branch_hints_return_their_input() {
    assert_eq!(pagemem::likely(true), true);
    assert_eq!(pagemem::likely(false), false);
    assert_eq!(pagemem::unlikely(true), true);
    assert_eq!(pagemem::unlikely(false), false);
}
