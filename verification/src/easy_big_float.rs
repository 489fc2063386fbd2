//! Arbitrary-precision numbers: the two-argument arctangent and the reading
//! of a number from text.
//!
//! The numbers are those of the crate `astro_float`. A [`BigFloat`] is
//! opaque here: the functions of this module decide which of its operations
//! are called, and on what, and leave the arithmetic to that crate. The
//! cache of constants that some operations need is handed in by the caller.
use vstd::prelude::*;
use astro_float::{BigFloat, Consts, Error, RoundingMode};

verus! {

/// A number of arbitrary precision.
#[verifier::external_type_specification]
#[verifier::external_body]
pub struct ExBigFloat(BigFloat);

/// The cache of constants such as pi, each to the precisions asked so far.
#[verifier::external_type_specification]
#[verifier::external_body]
pub struct ExConsts(Consts);

/// How an operation rounds its result.
#[verifier::external_type_specification]
#[verifier::external_body]
pub struct ExRoundingMode(RoundingMode);

/// Why an operation failed.
#[verifier::external_type_specification]
#[verifier::external_body]
pub struct ExError(Error);

/// The rounding mode `RoundingMode::None`, with which an operation skips
/// rounding.
#[verifier::external_body]
fn no_rounding() -> RoundingMode {
    RoundingMode::None
}

/// `BigFloat::new`: a number with the value zero and `p` bits of precision.
#[verifier::external_body]
fn big_zero(p: usize) -> BigFloat {
    BigFloat::new(p)
}

/// The constant `astro_float::NAN`: not a number.
#[verifier::external_body]
fn big_nan() -> BigFloat {
    astro_float::NAN
}

/// `Consts::pi`: pi to `p` bits, rounded as `rm` says.
#[verifier::external_body]
fn big_pi(cc: &mut Consts, p: usize, rm: RoundingMode) -> BigFloat {
    cc.pi(p, rm)
}

/// `BigFloat::cmp`: a positive number where `a` is above `b`, a negative
/// one where it is below, zero where the two are equal, and nothing where
/// one of them is not a number. Which number is returned is left open.
#[verifier::external_body]
fn big_compare(a: &BigFloat, b: &BigFloat) -> Option<i128> {
    a.cmp(b).map(i128::from)
}

/// `BigFloat::add`: the sum to `p` bits, rounded as `rm` says.
#[verifier::external_body]
fn big_add(a: &BigFloat, b: &BigFloat, p: usize, rm: RoundingMode) -> BigFloat {
    a.add(b, p, rm)
}

/// `BigFloat::sub`: the difference to `p` bits, rounded as `rm` says.
#[verifier::external_body]
fn big_sub(a: &BigFloat, b: &BigFloat, p: usize, rm: RoundingMode) -> BigFloat {
    a.sub(b, p, rm)
}

/// `BigFloat::div`: the quotient to `p` bits, rounded as `rm` says.
#[verifier::external_body]
fn big_div(a: &BigFloat, b: &BigFloat, p: usize, rm: RoundingMode) -> BigFloat {
    a.div(b, p, rm)
}

/// `BigFloat::atan`: the arctangent to `p` bits, rounded as `rm` says.
#[verifier::external_body]
fn big_atan(a: &BigFloat, p: usize, rm: RoundingMode, cc: &mut Consts) -> BigFloat {
    a.atan(p, rm, cc)
}

/// `BigFloat::from_str`: the number that the text holds in decimal
/// notation, not a number where it holds none, or the error that stopped
/// the reading.
#[verifier::external_body]
fn big_parse(text: &str) -> Result<BigFloat, Error> {
    text.parse::<BigFloat>()
}

/// What [`atan2`] returns.
#[derive(Clone, Copy, Debug, PartialEq, Eq)]
pub enum Atan2Case {
    /// Zero.
    Zero,
    /// The arctangent of the quotient of `y` and `x`.
    Arctangent,
    /// The arctangent of the quotient, with pi added.
    ArctangentPlusPi,
    /// The arctangent of the quotient, with pi subtracted.
    ArctangentMinusPi,
    /// Not a number.
    NotANumber,
}

/// The case that [`atan2`] is in, by how zero compares with `y` (`cy`) and
/// with `x` (`cx`): a comparison is positive where zero is the greater,
/// negative where it is the lesser, and absent where the other number is
/// not a number.
pub open spec fn atan2_case_spec(cy: Option<i128>, cx: Option<i128>) -> Atan2Case {
    if cy is None || cx is None {
        Atan2Case::NotANumber
    } else if cy == Some(0i128) && cx == Some(0i128) {
        Atan2Case::Zero
    } else if cx->0 >= 0 {
        Atan2Case::Arctangent
    } else if cy->0 >= 0 {
        Atan2Case::ArctangentPlusPi
    } else {
        Atan2Case::ArctangentMinusPi
    }
}

/// Decides the case of [`atan2`] from the comparisons of zero with `y` and
/// with `x`.
pub fn atan2_case(cy: Option<i128>, cx: Option<i128>) -> (c: Atan2Case)
    ensures
        c == atan2_case_spec(cy, cx),
{
    match (cy, cx) {
        (Some(cy), Some(cx)) => {
            if cy == 0 && cx == 0 {
                Atan2Case::Zero
            } else if cx >= 0 {
                Atan2Case::Arctangent
            } else if cy >= 0 {
                Atan2Case::ArctangentPlusPi
            } else {
                Atan2Case::ArctangentMinusPi
            }
        },
        (_, _) => Atan2Case::NotANumber,
    }
}

/// The two-argument arctangent of `y` and `x`, to `p` bits.
///
/// Zero is compared with `y` and with `x`, and [`atan2_case`] decides from
/// the two comparisons what is computed: zero, the arctangent of `y / x`,
/// that arctangent with pi added or subtracted, or not a number. The
/// arithmetic is that of `astro_float`, so nothing is stated of the number
/// that comes back.
#[inline]
pub fn atan2(y: &BigFloat, x: &BigFloat, p: usize, cc: &mut Consts) -> BigFloat {
    let rm = no_rounding();
    let zero = big_zero(p);
    let pi = big_pi(cc, p, rm);
    match atan2_case(big_compare(&zero, y), big_compare(&zero, x)) {
        Atan2Case::Zero => zero,
        Atan2Case::NotANumber => big_nan(),
        case => {
            let atanyx = big_atan(&big_div(y, x, p, rm), p, rm, cc);
            match case {
                Atan2Case::ArctangentPlusPi => big_add(&atanyx, &pi, p, rm),
                Atan2Case::ArctangentMinusPi => big_sub(&atanyx, &pi, p, rm),
                _ => atanyx,
            }
        },
    }
}

/// Why [`from_str_radix`] returned no number.
#[derive(Clone, Copy, Debug, PartialEq, Eq)]
pub enum RadixError {
    /// The radix was ten.
    RadixTen,
    /// The reading failed with an error of `astro_float`.
    Failed,
}

/// What [`from_str_radix`] makes of a reading of `astro_float`: the number
/// that was read, or [`RadixError::Failed`] in place of the error.
pub open spec fn reading_outcome_spec(read: Result<BigFloat, Error>) -> Result<
    BigFloat,
    RadixError,
> {
    match read {
        Ok(number) => Ok(number),
        Err(_) => Err(RadixError::Failed),
    }
}

/// Turns a reading of `astro_float` into the result of [`from_str_radix`].
pub fn reading_outcome(read: Result<BigFloat, Error>) -> (r: Result<BigFloat, RadixError>)
    ensures
        r == reading_outcome_spec(read),
{
    match read {
        Ok(number) => Ok(number),
        Err(_) => Err(RadixError::Failed),
    }
}

/// Reads a number from `text`.
///
/// A radix of ten is refused. With any other radix the text is read, in
/// decimal notation whatever the radix says; a text that holds no number
/// reads as not a number. Whether a reading fails is for `astro_float` to
/// say; [`reading_outcome`] states what is returned for each reading.
#[inline]
pub fn from_str_radix(text: &str, radix: u32) -> (r: Result<BigFloat, RadixError>)
    ensures
        radix == 10 ==> r == Err::<BigFloat, RadixError>(RadixError::RadixTen),
        radix != 10 ==> r is Ok || r == Err::<BigFloat, RadixError>(RadixError::Failed),
{
    if radix != 10 {
        reading_outcome(big_parse(text))
    } else {
        Err(RadixError::RadixTen)
    }
}

} // verus!
