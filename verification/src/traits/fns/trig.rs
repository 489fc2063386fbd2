//! Trigonometric and hyperbolic functions.
use vstd::prelude::*;

verus! {

/// All trigonometric and hyperbolic functions.
pub trait TrigFns:
    Sin + Sinh + SinCos + Asin + Asinh + Cos + Cosh + Acos + Acosh + Tan + Tanh + Atan + Atan2 + Atanh
{
}

/// Inverse cosine.
pub trait Acos: Sized {
    fn acos(&self) -> Self;
}

/// Inverse hyperbolic cosine.
pub trait Acosh: Sized {
    fn acosh(&self) -> Self;
}

/// Inverse sine.
pub trait Asin: Sized {
    fn asin(&self) -> Self;
}

/// Inverse hyperbolic sine.
pub trait Asinh: Sized {
    fn asinh(&self) -> Self;
}

/// Inverse tangent.
pub trait Atan: Sized {
    fn atan(&self) -> Self;
}

/// Angle of the point whose ordinate is `self` and whose abscissa is `other`.
pub trait Atan2: Sized {
    fn atan2(&self, other: &Self) -> Self;
}

/// Inverse hyperbolic tangent.
pub trait Atanh: Sized {
    fn atanh(&self) -> Self;
}

/// Cosine.
///
/// An implementation that computes a function of its argument says so by
/// defining `cos_spec` and letting `obeys_cos_spec` be `true`. By default
/// nothing is promised.
pub trait Cos: Sized {
    /// Whether `cos` returns exactly `cos_spec`.
    open spec fn obeys_cos_spec() -> bool {
        false
    }

    /// The cosine, where the implementation defines one.
    open spec fn cos_spec(&self) -> Self {
        arbitrary()
    }

    fn cos(&self) -> (r: Self)
        ensures
            Self::obeys_cos_spec() ==> r == self.cos_spec(),
    ;
}

/// Hyperbolic cosine.
pub trait Cosh: Sized {
    fn cosh(&self) -> Self;
}

/// Sine.
///
/// An implementation that computes a function of its argument says so by
/// defining `sin_spec` and letting `obeys_sin_spec` be `true`. By default
/// nothing is promised.
pub trait Sin: Sized {
    /// Whether `sin` returns exactly `sin_spec`.
    open spec fn obeys_sin_spec() -> bool {
        false
    }

    /// The sine, where the implementation defines one.
    open spec fn sin_spec(&self) -> Self {
        arbitrary()
    }

    fn sin(&self) -> (r: Self)
        ensures
            Self::obeys_sin_spec() ==> r == self.sin_spec(),
    ;
}

/// Sine and cosine at once.
pub trait SinCos: core::marker::Sized {
    fn sin_cos(&self) -> (Self, Self);
}

/// Hyperbolic sine.
pub trait Sinh: Sized {
    fn sinh(&self) -> Self;
}

/// Tangent.
pub trait Tan: Sized {
    fn tan(&self) -> Self;
}

/// Hyperbolic tangent.
pub trait Tanh: Sized {
    fn tanh(&self) -> Self;
}

} // verus!
