//! Logarithms.
use vstd::prelude::*;

verus! {

/// All logarithms.
pub trait LogFns: Ln + Ln1P + Log + Log10 + Log2 {
}

/// Natural logarithm.
pub trait Ln: Sized {
    fn ln(self) -> Self;
}

/// Natural logarithm of one plus the value.
pub trait Ln1P: Sized {
    fn ln_1p(self) -> Self;
}

/// Logarithm to a given base.
pub trait Log: Sized {
    fn log(self, base: Self) -> Self;
}

/// Logarithm in the family of base ten.
pub trait Log10: Sized {
    fn log10(self, base: Self) -> Self;
}

/// Logarithm in the family of base two.
pub trait Log2: Sized {
    fn log2(self, base: Self) -> Self;
}

} // verus!
