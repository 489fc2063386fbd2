//! Exponentials.
use vstd::prelude::*;

verus! {

/// All exponential functions.
pub trait ExpFns: Exp + Exp2 + ExpM1 {
}

/// `e` raised to the value.
pub trait Exp: Sized {
    fn exp(self) -> Self;
}

/// Two raised to the value.
pub trait Exp2: Sized {
    fn exp2(self) -> Self;
}

/// `e` raised to the value, minus one.
pub trait ExpM1: Sized {
    fn exp_m1(self) -> Self;
}

} // verus!
