//! Single-purpose numeric functions.
use vstd::prelude::*;

pub mod abs;
pub mod exp;
pub mod float;
pub mod log;
pub mod pow;
pub mod trig;

verus! {

/// Cube root.
pub trait CubeRoot: Sized {
    fn cbrt(self) -> Self;
}

/// Least integer not below the value.
pub trait Ceil: Sized {
    fn ceil(self) -> Self;
}

/// Restriction to an interval.
pub trait Clamp: Sized {
    fn clamp(self, min: Self, max: Self) -> Self;
}

/// Quotient of Euclidean division.
pub trait DivEuclid: Sized {
    fn div_euclid(self, rhs: Self) -> Self;
}

/// Greatest integer not above the value.
pub trait Floor: Sized {
    fn floor(self) -> Self;
}

/// Fractional part.
pub trait Fract: Sized {
    fn fract(self) -> Self;
}

/// Length of the hypotenuse of a right triangle with the two given legs.
pub trait Hypot: Sized {
    fn hypot(self, other: Self) -> Self;
}

/// Access to the sign.
pub trait Signed: Sized {
    fn is_sign_positive(&self) -> bool;

    fn is_sign_negative(&self) -> bool;

    fn signum(&self) -> Self;

    fn copysign(&self, sign: &Self) -> Self;
}

/// Larger of two values.
pub trait Max: Sized {
    fn max(self, other: Self) -> Self;
}

/// Smaller of two values.
pub trait Min: Sized {
    fn min(self, other: Self) -> Self;
}

/// Fused multiply-add: `self * a + b` with one rounding.
///
/// An implementation that computes a function of its arguments says so by
/// defining `mul_add_spec` and letting `obeys_mul_add_spec` be `true`. By
/// default nothing is promised.
pub trait MulAdd: Sized {
    /// Whether `mul_add` returns exactly `mul_add_spec`.
    open spec fn obeys_mul_add_spec() -> bool {
        false
    }

    /// The fused result, where the implementation defines one.
    open spec fn mul_add_spec(self, a: Self, b: Self) -> Self {
        arbitrary()
    }

    fn mul_add(self, a: Self, b: Self) -> (r: Self)
        ensures
            Self::obeys_mul_add_spec() ==> r == self.mul_add_spec(a, b),
    ;
}

/// Multiplicative inverse.
pub trait Recip: Sized {
    fn recip(self) -> Self;
}

/// Remainder of Euclidean division.
pub trait RemEuclid: Sized {
    fn rem_euclid(self, rhs: Self) -> Self;
}

/// Nearest integer.
pub trait Round: Sized {
    fn round(self) -> Self;
}

/// Square root.
///
/// An implementation that computes a function of its argument says so by
/// defining `sqrt_spec` and letting `obeys_sqrt_spec` be `true`; generic
/// code then knows the value of `sqrt`. By default nothing is promised.
pub trait SquareRoot: Sized {
    /// Whether `sqrt` returns exactly `sqrt_spec`.
    open spec fn obeys_sqrt_spec() -> bool {
        false
    }

    /// The value of the square root, where the implementation defines one.
    open spec fn sqrt_spec(&self) -> Self {
        arbitrary()
    }

    fn sqrt(&self) -> (r: Self)
        ensures
            Self::obeys_sqrt_spec() ==> r == self.sqrt_spec(),
    ;
}

/// Conversion between degrees and radians.
pub trait Degrees: Sized {
    fn to_degrees(self) -> Self;

    fn to_radians(self) -> Self;
}

/// Integer part.
pub trait Trunc: Sized {
    fn trunc(self) -> Self;
}

} // verus!
