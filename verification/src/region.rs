//! Fixed-length, page-backed element regions.
//!
//! A `TypedArray<T>` owns no memory in the language's sense: its storage is a
//! page-aligned range obtained from the page-memory service, its element
//! addresses are plain numbers computed from the base address, and nothing is
//! released when a value of it is dropped. Release is a separate, explicit
//! operation, because the allocator's process-lifetime metadata must never
//! disappear with a scope. `OwnedArray<T>` is the variant for data that must
//! not outlive a block: it can only be taken apart by releasing it, and being
//! consumed by the release, it releases exactly once.

use vstd::prelude::*;

use crate::mmap::lemma_mapped_bytes_minimal;
use crate::mmap::mapped_bytes_for;
use crate::mmap::PageMemory;

verus! {

/// The bytes that `count` elements of `T` occupy end to end.
pub open spec fn elem_bytes<T>(count: int) -> int {
    count * (vstd::layout::size_of::<T>() as int)
}

/// Mathematical state of a typed region: the base address of its mapped
/// range, its element count, the element size, the bytes actually mapped,
/// and the page size it was sized against.
pub struct RegionModel {
    pub base: int,
    pub len: int,
    pub elem: int,
    pub mapped: int,
    pub page: int,
}

impl RegionModel {
    /// The mapped range starts above address zero, covers the elements with
    /// whole pages and nothing more, and lies within the address space.
    pub open spec fn wf(self) -> bool {
        &&& 1 <= self.page
        &&& 0 <= self.elem
        &&& 0 <= self.len
        &&& 1 <= self.base
        &&& self.mapped == mapped_bytes_for(self.len * self.elem, self.page)
        &&& self.base + self.mapped <= usize::MAX
    }

    /// The address of each element, in index order.
    pub open spec fn addresses(self) -> Seq<int> {
        Seq::new(self.len as nat, |i: int| self.base + i * self.elem)
    }
}

/// A region's element bytes never exceed its mapped bytes.
pub proof fn lemma_elements_fit(m: RegionModel)
    requires
        m.wf(),
    ensures
        m.len * m.elem <= m.mapped,
{
    let bytes = m.len * m.elem;
    if bytes >= 1 {
        lemma_mapped_bytes_minimal(bytes, m.page);
    } else {
        assert(m.len * m.elem >= 0) by (nonlinear_arith)
            requires
                m.len >= 0,
                m.elem >= 0,
        ;
    }
}

/// Iteration arithmetic: a region's address sequence has exactly `len`
/// entries, the entry at `i` is `base + i * elem`, and for elements of
/// positive size the entries are strictly increasing.
pub proof fn lemma_addresses_exact(m: RegionModel)
    requires
        m.wf(),
        m.elem >= 1,
    ensures
        m.addresses().len() == m.len,
        forall|i: int| 0 <= i < m.len ==> #[trigger] m.addresses()[i] == m.base + i * m.elem,
        forall|i: int, j: int|
            0 <= i < j < m.len ==> #[trigger] m.addresses()[i] < #[trigger] m.addresses()[j],
{
    assert forall|i: int, j: int| 0 <= i < j < m.len implies #[trigger] m.addresses()[i]
        < #[trigger] m.addresses()[j] by {
        assert(i * m.elem < j * m.elem) by (nonlinear_arith)
            requires
                i < j,
                m.elem >= 1,
        ;
    }
}

/// A fixed-length array of `T` elements backed by whole pages from the
/// page-memory service. Access is by element address; memory is only ever
/// released by an explicit `destroy`, never implicitly.
pub struct TypedArray<T> {
    base: usize,
    len: usize,
    mapped: usize,
    page: Ghost<usize>,
    marker: core::marker::PhantomData<T>,
}

impl<T> View for TypedArray<T> {
    type V = RegionModel;

    closed spec fn view(&self) -> RegionModel {
        RegionModel {
            base: self.base as int,
            len: self.len as int,
            elem: vstd::layout::size_of::<T>() as int,
            mapped: self.mapped as int,
            page: self.page@ as int,
        }
    }
}

impl<T> TypedArray<T> {
    /// Map a region for `size` elements of `T`: the smallest number of whole
    /// pages that covers them, and a single page when they occupy no bytes,
    /// so that the region is well formed rather than null. The request must
    /// be satisfiable; the backing pages are realized lazily by the
    /// operating system, not here.
    pub fn new(pm: &mut PageMemory, size: usize) -> (r: TypedArray<T>)
        requires
            old(pm)@.wf(),
            elem_bytes::<T>(size as int) <= usize::MAX,
            old(pm)@.can_map(mapped_bytes_for(elem_bytes::<T>(size as int), old(pm)@.page)),
        ensures
            final(pm)@.wf(),
            final(pm)@.page == old(pm)@.page,
            final(pm)@.next == old(pm)@.next + r@.mapped,
            r@.wf(),
            r@.len == size,
            r@.elem == vstd::layout::size_of::<T>(),
            r@.page == old(pm)@.page,
            r@.mapped == mapped_bytes_for(elem_bytes::<T>(size as int), old(pm)@.page),
            final(pm)@.mappings == old(pm)@.mappings.insert(r@.base, r@.mapped),
            forall|b: int| #[trigger]
                old(pm)@.mappings.dom().contains(b) ==> b + old(pm)@.mappings[b] <= r@.base,
    {
        let elem: usize = core::mem::size_of::<T>();
        let bytes: usize = size * elem;
        let page: usize = pm.page_size();
        let ghost target = mapped_bytes_for(bytes as int, page as int);
        proof {
            assert(old(pm)@.next >= 1);
            assert(target <= usize::MAX - 1);
        }
        let region_size: usize = if bytes == 0 {
            page
        } else if bytes % page == 0 {
            bytes
        } else {
            let d: usize = bytes / page;
            proof {
                assert(target == (d as int + 1) * (page as int));
                assert(d as int + 1 <= (d as int + 1) * (page as int)) by (nonlinear_arith)
                    requires
                        page as int >= 1,
                        d as int >= 0,
                ;
            }
            (d + 1) * page
        };
        proof {
            assert(region_size as int == target);
            vstd::arithmetic::div_mod::lemma_mod_self_0(page as int);
            if bytes != 0 && bytes as int % page as int != 0 {
                let d = bytes as int / page as int;
                vstd::arithmetic::div_mod::lemma_mod_multiples_basic(d + 1, page as int);
                vstd::arithmetic::mul::lemma_mul_inequality(1, d + 1, page as int);
            }
            assert(region_size >= 1);
            assert(region_size as int % page as int == 0);
        }
        let base = pm.map(region_size);
        TypedArray {
            base,
            len: size,
            mapped: region_size,
            page: Ghost(page),
            marker: core::marker::PhantomData,
        }
    }

    /// The number of elements the region was sized for.
    pub fn len(&self) -> (r: usize)
        ensures
            r == self@.len,
    {
        self.len
    }

    /// The bytes actually reserved: a whole number of pages.
    pub fn mapped_bytes(&self) -> (r: usize)
        ensures
            r == self@.mapped,
    {
        self.mapped
    }

    /// The address the mapped range starts at.
    pub fn base_address(&self) -> (r: usize)
        ensures
            r == self@.base,
    {
        self.base
    }

    /// The address of the element at `n`, by plain arithmetic from the base
    /// address. Index validity is the caller's obligation, stated as a
    /// precondition rather than checked at run time, to keep this hot path
    /// free of branches.
    pub fn get(&self, n: usize) -> (r: usize)
        requires
            self@.wf(),
            n < self@.len,
        ensures
            r == self@.base + n as int * self@.elem,
            r == self@.addresses()[n as int],
    {
        proof {
            let m = self@;
            lemma_elements_fit(m);
            assert(n as int * m.elem <= m.len * m.elem) by (nonlinear_arith)
                requires
                    0 <= (n as int),
                    (n as int) < m.len,
                    m.elem >= 0,
            ;
        }
        self.base + n * core::mem::size_of::<T>()
    }

    /// A fresh traversal of the element addresses, starting at index zero.
    /// What it will yield is the region's address sequence, a function of the
    /// region alone: two fresh traversals of one region yield identical
    /// sequences.
    pub fn iter(&self) -> (it: TypedArrayIter<T>)
        ensures
            it.region() == self@,
            it.pos() == 0,
            it.future() == self@.addresses(),
    {
        let it = TypedArrayIter { inner: self, cur: 0 };
        proof {
            assert(it.future() =~= self@.addresses());
        }
        it
    }

    /// Release the region's pages back to the service. The region must be the
    /// live mapping it was created as; releasing it removes that mapping, so
    /// no second release of the same region can satisfy this precondition,
    /// and no access through the service can name it again.
    pub fn destroy(&self, pm: &mut PageMemory)
        requires
            old(pm)@.wf(),
            old(pm)@.mappings.dom().contains(self@.base),
            old(pm)@.mappings[self@.base] == self@.mapped,
        ensures
            final(pm)@.wf(),
            final(pm)@.page == old(pm)@.page,
            final(pm)@.next == old(pm)@.next,
            final(pm)@.mappings == old(pm)@.mappings.remove(self@.base),
    {
        pm.unmap(self.base, self.mapped);
    }
}

/// A forward traversal over a region's element addresses. Each call to
/// `TypedArray::iter` starts a fresh one, and what it yields is a function of
/// the region alone, so two traversals of one region are identical.
pub struct TypedArrayIter<'a, T> {
    inner: &'a TypedArray<T>,
    cur: usize,
}

impl<'a, T> TypedArrayIter<'a, T> {
    /// The region being traversed.
    pub closed spec fn region(self) -> RegionModel {
        self.inner@
    }

    /// The index of the next element to yield.
    pub closed spec fn pos(self) -> int {
        self.cur as int
    }

    /// The addresses still to be yielded, in order.
    pub open spec fn future(self) -> Seq<int>
        recommends
            0 <= self.pos() <= self.region().len,
    {
        self.region().addresses().skip(self.pos())
    }

    /// The next element address: `base + pos * elem`, until `len` addresses
    /// have been yielded.
    pub fn next(&mut self) -> (r: Option<usize>)
        requires
            old(self).region().wf(),
            old(self).pos() <= old(self).region().len,
        ensures
            final(self).region() == old(self).region(),
            old(self).pos() < old(self).region().len ==> {
                &&& r matches Some(a) && a == old(self).region().base + old(self).pos() * old(
                    self,
                ).region().elem
                &&& final(self).pos() == old(self).pos() + 1
                &&& final(self).future() == old(self).future().drop_first()
            },
            old(self).pos() >= old(self).region().len ==> r is None && final(self).pos() == old(
                self,
            ).pos(),
    {
        if self.cur == self.inner.len() {
            None
        } else {
            let res = self.inner.get(self.cur);
            self.cur = self.cur + 1;
            proof {
                assert(self.future() =~= old(self).future().drop_first());
            }
            Some(res)
        }
    }
}

/// A `TypedArray` whose storage must not outlive its scope. It offers the
/// same access as the region it wraps, but it can only be disposed of by
/// `release`, which consumes it: the wrapped region is released exactly once,
/// and no access to the wrapper can follow the release.
pub struct OwnedArray<T>(TypedArray<T>);

impl<T> View for OwnedArray<T> {
    type V = RegionModel;

    closed spec fn view(&self) -> RegionModel {
        self.0@
    }
}

impl<T> OwnedArray<T> {
    /// Map a region for `size` elements of `T`, sized exactly as a
    /// `TypedArray` is.
    pub fn new(pm: &mut PageMemory, size: usize) -> (r: OwnedArray<T>)
        requires
            old(pm)@.wf(),
            elem_bytes::<T>(size as int) <= usize::MAX,
            old(pm)@.can_map(mapped_bytes_for(elem_bytes::<T>(size as int), old(pm)@.page)),
        ensures
            final(pm)@.wf(),
            final(pm)@.page == old(pm)@.page,
            final(pm)@.next == old(pm)@.next + r@.mapped,
            r@.wf(),
            r@.len == size,
            r@.elem == vstd::layout::size_of::<T>(),
            r@.page == old(pm)@.page,
            r@.mapped == mapped_bytes_for(elem_bytes::<T>(size as int), old(pm)@.page),
            final(pm)@.mappings == old(pm)@.mappings.insert(r@.base, r@.mapped),
    {
        OwnedArray(TypedArray::new(pm, size))
    }

    /// The number of elements the region was sized for.
    pub fn len(&self) -> (r: usize)
        ensures
            r == self@.len,
    {
        self.0.len()
    }

    /// The bytes actually reserved: a whole number of pages.
    pub fn mapped_bytes(&self) -> (r: usize)
        ensures
            r == self@.mapped,
    {
        self.0.mapped_bytes()
    }

    /// The address the mapped range starts at.
    pub fn base_address(&self) -> (r: usize)
        ensures
            r == self@.base,
    {
        self.0.base_address()
    }

    /// The address of the element at `n`, as on the wrapped region.
    pub fn get(&self, n: usize) -> (r: usize)
        requires
            self@.wf(),
            n < self@.len,
        ensures
            r == self@.base + n as int * self@.elem,
            r == self@.addresses()[n as int],
    {
        self.0.get(n)
    }

    /// A fresh traversal of the element addresses, as on the wrapped region.
    pub fn iter(&self) -> (it: TypedArrayIter<T>)
        ensures
            it.region() == self@,
            it.pos() == 0,
            it.future() == self@.addresses(),
    {
        self.0.iter()
    }

    /// Release the wrapped region. Taking the wrapper by value, this is the
    /// one exit from its scope, on every path: the wrapped region is released
    /// exactly once, and nothing can touch the wrapper afterwards.
    pub fn release(self, pm: &mut PageMemory)
        requires
            old(pm)@.wf(),
            old(pm)@.mappings.dom().contains(self@.base),
            old(pm)@.mappings[self@.base] == self@.mapped,
        ensures
            final(pm)@.wf(),
            final(pm)@.page == old(pm)@.page,
            final(pm)@.mappings == old(pm)@.mappings.remove(self@.base),
    {
        self.0.destroy(pm);
    }
}

} // verus!
