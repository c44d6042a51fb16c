//! A value that is kept apart from others.

use vstd::prelude::*;

verus! {

/// A value that is kept apart from others.
#[derive(Debug)]
pub struct CacheAlignedPadding<T>(pub T);

impl<T> CacheAlignedPadding<T> {
    pub fn new(t: T) -> (r: CacheAlignedPadding<T>)
        ensures
            r.0 == t,
    {
        CacheAlignedPadding(t)
    }

    pub fn into_inner(self) -> (r: T)
        ensures
            r == self.0,
    {
        self.0
    }

    pub fn get_ref(&self) -> (r: &T)
        ensures
            *r == self.0,
    {
        &self.0
    }

    pub fn get_mut(&mut self) -> (r: &mut T)
        ensures
            *r == old(self).0,
            final(self).0 == *final(r),
    {
        &mut self.0
    }
}

} // verus!
