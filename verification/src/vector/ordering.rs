//! Equality of vectors, and their order by the square of their length.
//!
//! Two vectors are equal where their elements are. A vector comes before
//! another where the square of its length does, so the order needs the
//! arithmetic of the element type, and its functions ask for what
//! [`Vector::length_squared`] asks.
use vstd::prelude::*;
use vstd::std_specs::cmp::{OrdSpec, PartialEqSpec, PartialOrdSpec};
use vstd::std_specs::ops::{AddSpec, MulSpec};
use core::cmp::Ordering;
use core::ops::{Add, Mul};
use crate::scalar::is_default;
use crate::vector::arithmetic::{dot_req, square_from};
use crate::vector::Vector;

verus! {

/// The elements of `a` and `b` that stand at the same index are equal.
pub open spec fn zip_eq<T: PartialEq>(a: Seq<T>, b: Seq<T>) -> bool {
    forall|i: int| 0 <= i < a.len() ==> (#[trigger] a[i]).eq_spec(&b[i])
}

impl<T, const DIMS: usize> PartialEq for Vector<T, DIMS> where T: PartialEq {
    /// Whether each element equals the element of `other` at its index.
    #[inline]
    fn eq(&self, other: &Self) -> (r: bool)
        ensures
            T::obeys_eq_spec() ==> r == zip_eq(self@, other@),
    {
        let mut same = true;
        for i in 0..DIMS
            invariant
                T::obeys_eq_spec() ==> same == zip_eq(self@.take(i as int), other@.take(i as int)),
        {
            proof {
                self.lemma_len();
                other.lemma_len();
            }
            let ghost before = same;
            if self.vals[i] != other.vals[i] {
                same = false;
            }
            proof {
                if T::obeys_eq_spec() {
                    let a = self@.take(i + 1);
                    let b = other@.take(i + 1);
                    if before && self@[i as int].eq_spec(&other@[i as int]) {
                        assert forall|j: int| 0 <= j < a.len() implies (#[trigger] a[j]).eq_spec(
                            &b[j],
                        ) by {
                            if j < i {
                                assert(self@.take(i as int)[j].eq_spec(&other@.take(i as int)[j]));
                            }
                        }
                    } else if !before {
                        let j = choose|j: int|
                            0 <= j < i && !(#[trigger] self@.take(i as int)[j]).eq_spec(
                                &other@.take(i as int)[j],
                            );
                        assert(!a[j].eq_spec(&b[j]));
                    } else {
                        assert(!a[i as int].eq_spec(&b[i as int]));
                    }
                }
            }
        }
        proof {
            self.lemma_len();
            other.lemma_len();
            assert(self@.take(DIMS as int) =~= self@);
            assert(other@.take(DIMS as int) =~= other@);
        }
        same
    }
}

impl<T, const DIMS: usize> vstd::std_specs::cmp::PartialEqSpecImpl for Vector<T, DIMS> where T: PartialEq {
    open spec fn obeys_eq_spec() -> bool {
        T::obeys_eq_spec()
    }

    open spec fn eq_spec(&self, other: &Self) -> bool {
        zip_eq(self@, other@)
    }
}

impl<T, const DIMS: usize> Eq for Vector<T, DIMS> where T: Eq {
}

impl<T, const DIMS: usize> Vector<T, DIMS> where
    T: Add<Output = T> + Mul<Output = T> + Default + PartialOrd + Copy,
 {
    /// Compares the squares of the lengths of two vectors.
    #[inline]
    pub fn partial_cmp(&self, other: &Self) -> (r: Option<Ordering>)
        requires
            forall|z: T| is_default(z) ==> dot_req(z, self@, self@),
            forall|z: T| is_default(z) ==> dot_req(z, other@, other@),
        ensures
            T::obeys_add_spec() && T::obeys_mul_spec() && T::obeys_partial_cmp_spec() ==> exists|
                y: T,
                z: T,
            |
                #![trigger is_default(y), is_default(z)]
                is_default(y) && is_default(z) && r == square_from(y, self@)
                    .partial_cmp_spec(&square_from(z, other@)),
    {
        self.length_squared().partial_cmp(&other.length_squared())
    }
}

impl<T, const DIMS: usize> Vector<T, DIMS> where
    T: Add<Output = T> + Mul<Output = T> + Default + Ord + Copy,
 {
    /// Orders two vectors by the squares of their lengths.
    #[inline]
    pub fn cmp(&self, other: &Self) -> (r: Ordering)
        requires
            forall|z: T| is_default(z) ==> dot_req(z, self@, self@),
            forall|z: T| is_default(z) ==> dot_req(z, other@, other@),
        ensures
            T::obeys_add_spec() && T::obeys_mul_spec() && T::obeys_cmp_spec() ==> exists|
                y: T,
                z: T,
            |
                #![trigger is_default(y), is_default(z)]
                is_default(y) && is_default(z) && r == square_from(y, self@)
                    .cmp_spec(&square_from(z, other@)),
    {
        self.length_squared().cmp(&other.length_squared())
    }

    /// The vector with the greater square of its length; `other` where the
    /// two squares are equal.
    #[inline]
    pub fn max(self, other: Self) -> (r: Self)
        requires
            forall|z: T| is_default(z) ==> dot_req(z, self@, self@),
            forall|z: T| is_default(z) ==> dot_req(z, other@, other@),
        ensures
            r == self || r == other,
            T::obeys_add_spec() && T::obeys_mul_spec() && T::obeys_cmp_spec() ==> exists|
                y: T,
                z: T,
            |
                #![trigger is_default(y), is_default(z)]
                is_default(y) && is_default(z) && r == (if square_from(y, self@)
                    .cmp_spec(&square_from(z, other@)) == Ordering::Greater {
                    self
                } else {
                    other
                }),
    {
        match self.cmp(&other) {
            Ordering::Greater => self,
            _ => other,
        }
    }

    /// The vector with the lesser square of its length; `self` where the
    /// two squares are equal.
    #[inline]
    pub fn min(self, other: Self) -> (r: Self)
        requires
            forall|z: T| is_default(z) ==> dot_req(z, self@, self@),
            forall|z: T| is_default(z) ==> dot_req(z, other@, other@),
        ensures
            r == self || r == other,
            T::obeys_add_spec() && T::obeys_mul_spec() && T::obeys_cmp_spec() ==> exists|
                y: T,
                z: T,
            |
                #![trigger is_default(y), is_default(z)]
                is_default(y) && is_default(z) && r == (if square_from(y, self@)
                    .cmp_spec(&square_from(z, other@)) == Ordering::Greater {
                    other
                } else {
                    self
                }),
    {
        match self.cmp(&other) {
            Ordering::Greater => other,
            _ => self,
        }
    }
}

} // verus!
