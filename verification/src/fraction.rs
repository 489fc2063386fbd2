//! Fractions.
use vstd::prelude::*;
use vstd::std_specs::ops::{DivSpec, MulSpec};
use core::ops::{Div, Mul};

verus! {

/// A numerator over a denominator. Nothing is reduced and nothing is asked
/// of the denominator.
#[derive(Debug, PartialEq)]
pub struct Fraction<T> {
    /// What stands above the line.
    pub numerator: T,
    /// What stands below the line.
    pub denominator: T,
}

impl<T> Mul for Fraction<T> where T: Mul<Output = T> {
    type Output = Self;

    /// The product of two fractions: numerator by numerator, denominator by
    /// denominator.
    fn mul(self, rhs: Self) -> (r: Self) {
        Fraction {
            numerator: self.numerator * rhs.numerator,
            denominator: self.denominator * rhs.denominator,
        }
    }
}

impl<T> vstd::std_specs::ops::MulSpecImpl for Fraction<T> where T: Mul<Output = T> {
    open spec fn obeys_mul_spec() -> bool {
        T::obeys_mul_spec()
    }

    open spec fn mul_req(self, rhs: Self) -> bool {
        self.numerator.mul_req(rhs.numerator) && self.denominator.mul_req(rhs.denominator)
    }

    open spec fn mul_spec(self, rhs: Self) -> Self {
        Fraction {
            numerator: self.numerator.mul_spec(rhs.numerator),
            denominator: self.denominator.mul_spec(rhs.denominator),
        }
    }
}

impl<T> Mul<T> for Fraction<T> where T: Mul<Output = T> {
    type Output = Self;

    /// The product of a fraction and a scalar: the numerator is multiplied,
    /// the denominator stays.
    fn mul(self, rhs: T) -> (r: Self) {
        Fraction { numerator: self.numerator * rhs, denominator: self.denominator }
    }
}

impl<T> vstd::std_specs::ops::MulSpecImpl<T> for Fraction<T> where T: Mul<Output = T> {
    open spec fn obeys_mul_spec() -> bool {
        T::obeys_mul_spec()
    }

    open spec fn mul_req(self, rhs: T) -> bool {
        self.numerator.mul_req(rhs)
    }

    open spec fn mul_spec(self, rhs: T) -> Self {
        Fraction { numerator: self.numerator.mul_spec(rhs), denominator: self.denominator }
    }
}

impl<T> From<(T, T)> for Fraction<T> {
    /// The fraction of a numerator and a denominator, in this order.
    fn from(value: (T, T)) -> (r: Self) {
        Fraction { numerator: value.0, denominator: value.1 }
    }
}

impl<T> vstd::std_specs::convert::FromSpecImpl<(T, T)> for Fraction<T> {
    open spec fn obeys_from_spec() -> bool {
        true
    }

    open spec fn from_spec(value: (T, T)) -> Self {
        Fraction { numerator: value.0, denominator: value.1 }
    }
}

/// The value of a fraction, for a scalar type whose division yields it.
pub struct F<T>(pub T);

/// The numerator of `value` divided by its denominator.
pub fn quotient<T>(value: Fraction<T>) -> (r: F<T>) where T: Div<Output = F<T>>
    requires
        value.numerator.div_req(value.denominator),
    ensures
        T::obeys_div_spec() ==> r == value.numerator.div_spec(value.denominator),
{
    value.numerator / value.denominator
}

} // verus!
