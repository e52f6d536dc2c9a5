//! Deferred, first-touch initialization.
//!
//! A `Lazy<T>` keeps `T`'s construction parameters strict but builds the `T`
//! itself only when it is first accessed. Nothing here synchronizes: a cell
//! must be reachable from a single thread of control, or the caller must add
//! its own synchronization around the first access.

use vstd::prelude::*;

use crate::unlikely;

verus! {

/// A type that can be constructed from a `Params` value. Types that implement
/// this trait can be wrapped in the `Lazy` construct.
pub trait LazyInitializable: Sized {
    type Params;

    /// Build a value from the construction parameters.
    fn init(p: &Self::Params) -> Self;
}

/// A cell that stores construction parameters at creation and materializes
/// its value, by `T::init`, on first access. Once a value exists it is never
/// rebuilt or dropped: the constructor runs at most once for the cell's
/// lifetime, on the first access. Should `T::init` panic, no value is stored
/// and a later access attempts construction again.
pub struct Lazy<T: LazyInitializable> {
    params: T::Params,
    val: Option<T>,
}

impl<T: LazyInitializable> Lazy<T> {
    /// The construction parameters, fixed at creation.
    pub closed spec fn spec_params(self) -> T::Params {
        self.params
    }

    /// The stored value: nothing until the first access, then always the
    /// value built by that access.
    pub closed spec fn spec_value(self) -> Option<T> {
        self.val
    }

    /// Whether the value has been materialized.
    pub open spec fn is_initialized(self) -> bool {
        self.spec_value() is Some
    }

    /// Store `params` only; no `T` is constructed.
    pub fn new(params: T::Params) -> (r: Self)
        ensures
            r.spec_params() == params,
            !r.is_initialized(),
    {
        Lazy { params, val: None }
    }

    /// Read access. The first call constructs the value from the stored
    /// parameters; an already initialized cell is returned unchanged, so the
    /// constructor runs at most once however often the cell is accessed. The
    /// initialization branch is the rare path and is marked as such.
    pub fn get(&mut self) -> (r: &T)
        ensures
            final(self).is_initialized(),
            final(self).spec_params() == old(self).spec_params(),
            old(self).is_initialized() ==> *final(self) == *old(self),
            !old(self).is_initialized() ==> call_ensures(
                T::init,
                (&old(self).spec_params(),),
                *r,
            ),
            final(self).spec_value() == Some(*r),
    {
        if unlikely(self.val.is_none()) {
            self.val = Some(T::init(&self.params));
        }
        self.val.as_ref().unwrap()
    }

    /// Write access, materializing the value first exactly as `get` does: an
    /// already stored value is handed out, never rebuilt.
    pub fn get_mut(&mut self) -> (r: &mut T)
        ensures
            old(self).is_initialized() ==> old(self).spec_value() == Some(*r),
            !old(self).is_initialized() ==> call_ensures(
                T::init,
                (&old(self).spec_params(),),
                *r,
            ),
            final(self).spec_params() == old(self).spec_params(),
            final(self).spec_value() == Some(*final(r)),
    {
        if unlikely(self.val.is_none()) {
            self.val = Some(T::init(&self.params));
        }
        self.val.as_mut().unwrap()
    }
}

impl<T: LazyInitializable> Clone for Lazy<T> where T::Params: Clone {
    /// Cloning duplicates the construction parameters and discards any
    /// already computed value: a clone always starts uninitialized, a fresh
    /// instance with the same configuration rather than a copy of state.
    fn clone(&self) -> (r: Self)
        ensures
            !r.is_initialized(),
            vstd::pervasive::cloned::<T::Params>(self.spec_params(), r.spec_params()),
    {
        Lazy { params: self.params.clone(), val: None }
    }
}

} // verus!
