//! Access to single elements.
use vstd::prelude::*;
use core::ops::{Index, IndexMut};
use crate::vector::Vector;

verus! {

impl<T, const DIMS: usize> Index<usize> for Vector<T, DIMS> {
    type Output = T;

    /// The element at `index`, which lies below `DIMS`.
    #[inline]
    fn index(&self, index: usize) -> (r: &T)
        ensures
            *r == self@[index as int],
    {
        &self.vals[index]
    }
}

impl<T, const DIMS: usize> vstd::std_specs::core::IndexSpecImpl<usize> for Vector<T, DIMS> {
    open spec fn index_req(&self, index: &usize) -> bool {
        *index < DIMS
    }
}

impl<T, const DIMS: usize> IndexMut<usize> for Vector<T, DIMS> {
    /// The place of the element at `index`, which lies below `DIMS`. What
    /// is written there is the only change to the vector.
    #[inline]
    fn index_mut(&mut self, index: usize) -> (r: &mut T)
        requires
            index < DIMS,
        ensures
            *r == old(self)@[index as int],
            final(self)@ == old(self)@.update(index as int, *final(r)),
    {
        &mut self.vals[index]
    }
}

} // verus!
