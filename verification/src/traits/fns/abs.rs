//! Absolute values.
use vstd::prelude::*;

verus! {

/// Both absolute-value functions.
pub trait AbsFns: Abs + AbsSub {
}

/// Absolute value.
///
/// An implementation that computes a function of its argument says so by
/// defining `abs_spec` and letting `obeys_abs_spec` be `true`. By default
/// nothing is promised.
pub trait Abs: Sized {
    /// Whether `abs` returns exactly `abs_spec`.
    open spec fn obeys_abs_spec() -> bool {
        false
    }

    /// The absolute value, where the implementation defines one.
    open spec fn abs_spec(self) -> Self {
        arbitrary()
    }

    fn abs(self) -> (r: Self)
        ensures
            Self::obeys_abs_spec() ==> r == self.abs_spec(),
    ;
}

/// Positive difference.
pub trait AbsSub: Sized {
    fn abs_sub(self) -> Self;
}

} // verus!
