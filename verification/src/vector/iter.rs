//! Iteration over the elements.
use vstd::prelude::*;
use vstd::std_specs::iter::IteratorSpec;
use core::array;
use core::slice;
use crate::vector::Vector;

verus! {

/// The iterator that hands out the elements of an array by value.
#[verifier::external_type_specification]
#[verifier::external_body]
#[verifier::reject_recursive_types(T)]
pub struct ExArrayIntoIter<T, const N: usize>(array::IntoIter<T, N>);

/// The iterator that hands out the places of the elements of a slice.
#[verifier::external_type_specification]
#[verifier::external_body]
#[verifier::reject_recursive_types(T)]
pub struct ExSliceIterMut<'a, T: 'a>(slice::IterMut<'a, T>);

/// Hands the array to `IntoIterator::into_iter`, which yields its elements
/// by value from the first index upward and then ends. The contract says
/// so in the terms of `IteratorSpec`: what the iterator has yet to yield is
/// the sequence of the elements, and `next` hands it out from the front.
#[verifier::external_body]
fn array_into_iter<T, const N: usize>(a: [T; N]) -> (r: array::IntoIter<T, N>)
    ensures
        r.obeys_prophetic_iter_laws(),
        r.remaining() == a@,
{
    a.into_iter()
}

/// Calls `iter_mut` on the array as a slice, which yields the place of each
/// element from the first index upward and then ends. The contract says so
/// in the terms of `IteratorSpec`: the iterator has yet to yield one place
/// for each index, `next` hands them out from the front, each place holds
/// the element at its index, and the array holds in the end what each
/// place holds in the end.
#[verifier::external_body]
fn array_iter_mut<T, const N: usize>(a: &mut [T; N]) -> (r: slice::IterMut<'_, T>)
    ensures
        r.obeys_prophetic_iter_laws(),
        r.remaining().len() == N,
        forall|i: int| 0 <= i < N ==> *(#[trigger] r.remaining()[i]) == old(a)@[i],
        forall|i: int| 0 <= i < N ==> final(a)@[i] == *final(#[trigger] r.remaining()[i]),
{
    a.iter_mut()
}

impl<T, const DIMS: usize> Vector<T, DIMS> {
    /// An iterator over the elements, from the first index upward.
    #[inline]
    pub fn iter(&self) -> (r: slice::Iter<'_, T>)
        ensures
            r.remaining() == self@.as_ref(),
    {
        self.vals.iter()
    }

    /// An iterator over the places of the elements, from the first index
    /// upward: what is written to the place at an index is what the vector
    /// holds at that index afterwards.
    #[inline]
    pub fn iter_mut(&mut self) -> (r: slice::IterMut<'_, T>)
        ensures
            r.obeys_prophetic_iter_laws(),
            r.remaining().len() == DIMS,
            forall|i: int| 0 <= i < DIMS ==> *(#[trigger] r.remaining()[i]) == old(self)@[i],
            forall|i: int| 0 <= i < DIMS ==> final(self)@[i] == *final(#[trigger] r.remaining()[i]),
    {
        array_iter_mut(&mut self.vals)
    }
}

impl<T, const DIMS: usize> IntoIterator for Vector<T, DIMS> {
    type Item = T;

    type IntoIter = array::IntoIter<T, DIMS>;

    /// An iterator over the elements by value, from the first index upward.
    #[inline]
    fn into_iter(self) -> (r: Self::IntoIter)
        ensures
            r.obeys_prophetic_iter_laws(),
            r.remaining() == self@,
    {
        array_into_iter(self.vals)
    }
}

impl<'a, T, const DIMS: usize> IntoIterator for &'a Vector<T, DIMS> {
    type Item = &'a T;

    type IntoIter = slice::Iter<'a, T>;

    /// An iterator over the elements, from the first index upward.
    #[inline]
    fn into_iter(self) -> (r: Self::IntoIter)
        ensures
            r.remaining() == self@.as_ref(),
    {
        self.vals.iter()
    }
}

impl<'a, T, const DIMS: usize> IntoIterator for &'a mut Vector<T, DIMS> {
    type Item = &'a mut T;

    type IntoIter = slice::IterMut<'a, T>;

    /// An iterator over the places of the elements, from the first index
    /// upward: what is written to the place at an index is what the vector
    /// holds at that index afterwards.
    #[inline]
    fn into_iter(self) -> (r: Self::IntoIter)
        ensures
            r.obeys_prophetic_iter_laws(),
            r.remaining().len() == DIMS,
            forall|i: int| 0 <= i < DIMS ==> *(#[trigger] r.remaining()[i]) == old(self)@[i],
            forall|i: int| 0 <= i < DIMS ==> final(self)@[i] == *final(#[trigger] r.remaining()[i]),
    {
        array_iter_mut(&mut self.vals)
    }
}

} // verus!
