//! Equality of quaternions.
use vstd::prelude::*;
use vstd::std_specs::cmp::PartialEqSpec;
use crate::quaternion::Quaternion;

verus! {

impl<T> PartialEq for Quaternion<T> where T: PartialEq {
    /// Whether all four components are equal.
    fn eq(&self, other: &Self) -> (r: bool)
        ensures
            T::obeys_eq_spec() ==> r == (self.x.eq_spec(&other.x) && self.y.eq_spec(&other.y)
                && self.z.eq_spec(&other.z) && self.w.eq_spec(&other.w)),
    {
        self.x == other.x && self.y == other.y && self.z == other.z && self.w == other.w
    }
}

impl<T> vstd::std_specs::cmp::PartialEqSpecImpl for Quaternion<T> where T: PartialEq {
    open spec fn obeys_eq_spec() -> bool {
        T::obeys_eq_spec()
    }

    open spec fn eq_spec(&self, other: &Self) -> bool {
        self.x.eq_spec(&other.x) && self.y.eq_spec(&other.y) && self.z.eq_spec(&other.z)
            && self.w.eq_spec(&other.w)
    }
}

impl<T> Eq for Quaternion<T> where T: Eq {
}

} // verus!
