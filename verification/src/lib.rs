//! Foundational memory substrate for a size-class-based allocator: a
//! page-granular memory service, a deferred-initialization cell, and
//! fixed-length page-backed element regions with explicit or scope-bound
//! release.

use vstd::prelude::*;

pub mod lazy;
pub mod mmap;
pub mod region;

pub use lazy::Lazy;
pub use lazy::LazyInitializable;

pub use region::OwnedArray;
pub use region::RegionModel;
pub use region::TypedArray;
pub use region::TypedArrayIter;

verus! {

/// Advisory hint that a branch condition is expected to be false. Absent
/// platform support it returns its input unchanged; it never changes
/// observable behavior.
pub fn unlikely(b: bool) -> (r: bool)
    ensures
        r == b,
{
    b
}

/// Advisory hint that a branch condition is expected to be true. Absent
/// platform support it returns its input unchanged; it never changes
/// observable behavior.
pub fn likely(b: bool) -> (r: bool)
    ensures
        r == b,
{
    b
}

} // verus!

