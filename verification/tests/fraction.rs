use orml::fraction::{quotient, Fraction, F};
use std::ops::Div;

/// A whole number whose division yields the value of a fraction.
#[derive(Clone, Copy, Debug, PartialEq)]
struct Whole(i64);

impl Div for Whole {
    type Output = F<Whole>;

    fn div(self, rhs: Whole) -> F<Whole> {
        F(Whole(self.0 / rhs.0))
    }
}

#[test]
fn fractions_multiply_part_by_part() {
    let a: Fraction<i64> = (2, 3).into();
    let b: Fraction<i64> = (5, 7).into();
    let expected: Fraction<i64> = (10, 21).into();
    assert_eq!(a * b, expected);
}

#[test]
fn a_scalar_multiplies_the_numerator() {
    let a: Fraction<i64> = (2, 3).into();
    let expected: Fraction<i64> = (8, 3).into();
    assert_eq!(a * 4, expected);
}

#[test]
fn a_fraction_times_its_reverse_has_equal_parts() {
    for n in -20..20_i64 {
        for d in -20..20_i64 {
            let frac1: Fraction<i64> = (n, d).into();
            let frac2: Fraction<i64> = (d, n).into();
            let frac3 = frac1 * frac2;

            assert_eq!(frac3, (n * d, n * d).into());
        }
    }
}

#[test]
fn quotient_divides_the_numerator_by_the_denominator() {
    let a: Fraction<Whole> = (Whole(17), Whole(5)).into();
    assert_eq!(quotient(a).0, Whole(3));
}
