//! Page-granular memory service.
//!
//! The service pairs the machine's real page size, read from the operating
//! system once at construction, with an account of the address space it has
//! handed out: which page-aligned ranges are currently mapped. Callers must
//! pass page-aligned sizes; the service does not round on their behalf.
//! Ranges are never recycled, so a released range can never be confused with
//! a live one. The physical backing of a mapped range is the operating
//! system's business and is not part of this model.

use vstd::prelude::*;

verus! {

/// Relies on sysconf::page::pagesize: returns the operating system's page
/// size in bytes, as reported by `sysconf(_SC_PAGESIZE)`; a page size is a
/// positive number of bytes.
#[verifier::external_body]
pub fn page_size() -> (r: usize)
    ensures
        r >= 1,
{
    sysconf::page::pagesize()
}

/// The number of bytes a region of `bytes` bytes occupies when it is made of
/// whole pages of `page` bytes: the least multiple of `page` that covers
/// `bytes`, and a single page when `bytes` is zero, so that even an empty
/// request yields a usable region.
pub open spec fn mapped_bytes_for(bytes: int, page: int) -> int
    recommends
        page >= 1,
{
    if bytes == 0 {
        page
    } else if bytes % page == 0 {
        bytes
    } else {
        (bytes / page + 1) * page
    }
}

/// For any positive request, the page-rounded size is the smallest multiple
/// of the page size that is at least the request.
pub proof fn lemma_mapped_bytes_minimal(bytes: int, page: int)
    requires
        page >= 1,
        bytes >= 1,
    ensures
        mapped_bytes_for(bytes, page) % page == 0,
        mapped_bytes_for(bytes, page) >= bytes,
        forall|m: int| #[trigger] (m % page) == 0 && m >= bytes ==> m >= mapped_bytes_for(bytes, page),
{
    let d = bytes / page;
    let rem = bytes % page;
    vstd::arithmetic::div_mod::lemma_fundamental_div_mod(bytes, page);
    vstd::arithmetic::div_mod::lemma_mod_bound(bytes, page);
    if rem != 0 {
        vstd::arithmetic::div_mod::lemma_mod_multiples_basic(d + 1, page);
        assert((d + 1) * page >= bytes) by (nonlinear_arith)
            requires
                page >= 1,
                0 < rem < page,
                bytes == page * d + rem,
        ;
        assert forall|m: int| #[trigger] (m % page) == 0 && m >= bytes implies m >= (d + 1)
            * page by {
            let k = m / page;
            vstd::arithmetic::div_mod::lemma_fundamental_div_mod(m, page);
            assert(m >= (d + 1) * page) by (nonlinear_arith)
                requires
                    page >= 1,
                    0 < rem < page,
                    m == page * k,
                    bytes == page * d + rem,
                    m >= bytes,
            ;
        }
    }
}

/// Mathematical state of the page-memory service: the page size, the lowest
/// address that has never been handed out, and the live mappings, each
/// recorded as its base address and its size in bytes.
pub struct MemoryModel {
    pub page: int,
    pub next: int,
    pub mappings: Map<int, int>,
}

impl MemoryModel {
    /// Every live mapping is a positive, never-recycled range below `next`,
    /// and no two live mappings overlap.
    pub open spec fn wf(self) -> bool {
        &&& 1 <= self.page
        &&& self.page <= self.next
        &&& self.next <= usize::MAX
        &&& self.next % self.page == 0
        &&& forall|b: int| #[trigger]
            self.mappings.dom().contains(b) ==> 1 <= b && 1 <= self.mappings[b] && b
                + self.mappings[b] <= self.next
        &&& forall|b1: int, b2: int|
            self.mappings.dom().contains(b1) && self.mappings.dom().contains(b2) && b1 != b2
                ==> b1 + #[trigger] self.mappings[b1] <= b2 || b2 + #[trigger] self.mappings[b2]
                <= b1
    }

    /// A request of `size` bytes is satisfiable while the address space that
    /// has never been handed out can still hold it.
    pub open spec fn can_map(self, size: int) -> bool {
        self.next + size <= usize::MAX
    }
}

/// The page-memory service: the process-wide handle the other components draw
/// their storage from. It knows the machine's page size and accounts for the
/// page-aligned ranges it has mapped.
pub struct PageMemory {
    page: usize,
    next: usize,
    mappings: Ghost<Map<int, int>>,
}

impl View for PageMemory {
    type V = MemoryModel;

    closed spec fn view(&self) -> MemoryModel {
        MemoryModel { page: self.page as int, next: self.next as int, mappings: self.mappings@ }
    }
}

impl PageMemory {
    /// Create the service handle, reading the page size from the operating
    /// system. No address has been handed out yet, and address zero never
    /// will be: a mapped region is never null.
    pub fn new() -> (r: Self)
        ensures
            r@.wf(),
            r@.page >= 1,
            r@.mappings === Map::empty(),
    {
        let p = page_size();
        let r = PageMemory { page: p, next: p, mappings: Ghost(Map::empty()) };
        proof {
            vstd::arithmetic::div_mod::lemma_mod_self_0(p as int);
        }
        r
    }

    /// The page size this service was created with, constant for its lifetime.
    pub fn page_size(&self) -> (r: usize)
        ensures
            r == self@.page,
    {
        self.page
    }

    /// Whether a request of `size` bytes is currently satisfiable.
    pub fn can_map(&self, size: usize) -> (r: bool)
        ensures
            r == self@.can_map(size as int),
    {
        size <= usize::MAX - self.next
    }

    /// Reserve a page-aligned region of exactly `size` bytes and return its
    /// base address. The region is fresh: disjoint from every mapping that is
    /// or ever was live. The caller must pass a page-aligned size and a
    /// satisfiable request; `fallible_map` is the variant for callers that
    /// can recover from exhaustion.
    pub fn map(&mut self, size: usize) -> (r: usize)
        requires
            old(self)@.wf(),
            size >= 1,
            size as int % old(self)@.page == 0,
            old(self)@.can_map(size as int),
        ensures
            final(self)@.wf(),
            final(self)@.page == old(self)@.page,
            final(self)@.next == old(self)@.next + size,
            final(self)@.mappings == old(self)@.mappings.insert(r as int, size as int),
            1 <= r,
            r as int % final(self)@.page == 0,
            r + size <= usize::MAX,
            forall|b: int| #[trigger]
                old(self)@.mappings.dom().contains(b) ==> b + old(self)@.mappings[b] <= r,
    {
        let r = self.fallible_map(size);
        r.unwrap()
    }

    /// Reserve a page-aligned region of exactly `size` bytes, or return
    /// nothing when the request cannot be satisfied, for callers that have a
    /// fallback path. On failure the service is unchanged.
    pub fn fallible_map(&mut self, size: usize) -> (r: Option<usize>)
        requires
            old(self)@.wf(),
            size >= 1,
            size as int % old(self)@.page == 0,
        ensures
            final(self)@.wf(),
            final(self)@.page == old(self)@.page,
            r is Some <==> old(self)@.can_map(size as int),
            r is None ==> final(self)@ == old(self)@,
            r matches Some(base) ==> {
                &&& final(self)@.next == old(self)@.next + size
                &&& final(self)@.mappings == old(self)@.mappings.insert(base as int, size as int)
                &&& 1 <= base
                &&& base as int % final(self)@.page == 0
                &&& base + size <= usize::MAX
                &&& forall|b: int| #[trigger]
                    old(self)@.mappings.dom().contains(b) ==> b + old(self)@.mappings[b] <= base
            },
    {
        if size <= usize::MAX - self.next {
            let base = self.next;
            self.next = self.next + size;
            proof {
                self.mappings@ = self.mappings@.insert(base as int, size as int);
                let om = old(self)@;
                let nm = self@;
                vstd::arithmetic::div_mod::lemma_add_mod_noop(
                    base as int,
                    size as int,
                    om.page,
                );
                vstd::arithmetic::div_mod::lemma_small_mod(0, om.page as nat);
                assert(nm.next % nm.page == 0);
                assert forall|b: int| #[trigger] nm.mappings.dom().contains(b) implies 1 <= b && 1
                    <= nm.mappings[b] && b + nm.mappings[b] <= nm.next by {
                    if b != base as int {
                        assert(om.mappings.dom().contains(b));
                    }
                }
                assert forall|b1: int, b2: int|
                    nm.mappings.dom().contains(b1) && nm.mappings.dom().contains(b2) && b1
                        != b2 implies b1 + #[trigger] nm.mappings[b1] <= b2 || b2
                    + #[trigger] nm.mappings[b2] <= b1 by {
                    if b1 == base as int {
                        assert(om.mappings.dom().contains(b2));
                    } else if b2 == base as int {
                        assert(om.mappings.dom().contains(b1));
                    } else {
                        assert(om.mappings.dom().contains(b1));
                        assert(om.mappings.dom().contains(b2));
                    }
                }
                assert(nm.wf());
            }
            Some(base)
        } else {
            None
        }
    }

    /// Release the live mapping that starts at `base`. The address and size
    /// must exactly match a prior successful `map`; this is the caller's
    /// obligation, checked here as a precondition rather than at run time.
    /// The released range is never handed out again.
    pub fn unmap(&mut self, base: usize, size: usize)
        requires
            old(self)@.wf(),
            old(self)@.mappings.dom().contains(base as int),
            old(self)@.mappings[base as int] == size as int,
        ensures
            final(self)@.wf(),
            final(self)@.page == old(self)@.page,
            final(self)@.next == old(self)@.next,
            final(self)@.mappings == old(self)@.mappings.remove(base as int),
    {
        proof {
            self.mappings@ = self.mappings@.remove(base as int);
        }
    }

    /// Ask the operating system to back a sub-range of a live mapping with
    /// physical memory. Physical backing is not part of this model, so the
    /// service is unchanged; the precondition records that committing any
    /// range outside a live mapping is a caller error.
    pub fn commit(&mut self, base: usize, size: usize)
        requires
            old(self)@.wf(),
            exists|b: int| #[trigger]
                old(self)@.mappings.dom().contains(b) && b <= base as int && base + size <= b
                    + old(self)@.mappings[b],
        ensures
            final(self)@ == old(self)@,
    {
    }

    /// Ask the operating system to drop the physical backing of a sub-range
    /// of a live mapping. Physical backing is not part of this model, so the
    /// service is unchanged; the mapping itself stays live.
    pub fn uncommit(&mut self, base: usize, size: usize)
        requires
            old(self)@.wf(),
            exists|b: int| #[trigger]
                old(self)@.mappings.dom().contains(b) && b <= base as int && base + size <= b
                    + old(self)@.mappings[b],
        ensures
            final(self)@ == old(self)@,
    {
    }
}

/// Live mappings never overlap: whoever holds two distinct regions of one
/// service holds two disjoint address ranges.
pub proof fn lemma_live_mappings_disjoint(m: MemoryModel, b1: int, b2: int)
    requires
        m.wf(),
        m.mappings.dom().contains(b1),
        m.mappings.dom().contains(b2),
        b1 != b2,
    ensures
        b1 + m.mappings[b1] <= b2 || b2 + m.mappings[b2] <= b1,
{
}

/// A release is one-shot: once the mapping at `base` has been removed, no
/// mapping starts at `base` any more, so the precondition of `unmap` can
/// never hold of it a second time.
pub proof fn lemma_release_is_one_shot(before: MemoryModel, after: MemoryModel, base: int)
    requires
        after.mappings == before.mappings.remove(base),
    ensures
        !after.mappings.dom().contains(base),
{
}

} // verus!
