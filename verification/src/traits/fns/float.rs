//! Classification of floating-point values.
use vstd::prelude::*;
use core::num::FpCategory;

verus! {

/// The five classes a floating-point value can fall into.
#[verifier::external_type_specification]
#[verifier::external_body]
pub struct ExFpCategory(FpCategory);

/// All classification predicates.
pub trait FloatFns: Infinite + Nan + Normal + Classify {
}

/// Finite or infinite.
pub trait Infinite: Sized {
    fn is_finite(&self) -> bool;

    fn is_infinite(&self) -> bool;
}

/// Not a number.
pub trait Nan: Sized {
    fn is_nan(&self) -> bool;
}

/// Normal or subnormal.
pub trait Normal: Sized {
    fn is_normal(&self) -> bool;

    fn is_subnormal(&self) -> bool;
}

/// The class of a value.
pub trait Classify: Sized {
    fn classify(self) -> FpCategory;
}

} // verus!
