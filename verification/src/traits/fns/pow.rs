//! Powers.
use vstd::prelude::*;

verus! {

/// Raising to a power of the same type or to a whole power.
pub trait Pow: Sized {
    fn pow(self, n: &Self) -> Self;

    fn powi(self, n: usize) -> Self;
}

/// Raising to a whole power.
pub trait Powi: Sized {
    fn powi(self, n: usize) -> Self;
}

} // verus!
