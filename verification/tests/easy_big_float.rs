use astro_float::{BigFloat, Consts, RoundingMode};
use orml::easy_big_float::{
    atan2, atan2_case, from_str_radix, reading_outcome, Atan2Case, RadixError,
};

const P: usize = 128;
const RM: RoundingMode = RoundingMode::None;

fn same(a: &BigFloat, b: &BigFloat) -> bool {
    a.cmp(b) == Some(0)
}

#[test]
fn atan2_case_without_a_comparison_is_not_a_number() {
    assert_eq!(atan2_case(None, Some(1)), Atan2Case::NotANumber);
    assert_eq!(atan2_case(Some(-1), None), Atan2Case::NotANumber);
    assert_eq!(atan2_case(None, None), Atan2Case::NotANumber);
}

#[test]
fn atan2_case_of_two_zeros_is_zero() {
    assert_eq!(atan2_case(Some(0), Some(0)), Atan2Case::Zero);
}

#[test]
fn atan2_case_by_the_signs() {
    assert_eq!(atan2_case(Some(1), Some(0)), Atan2Case::Arctangent);
    assert_eq!(atan2_case(Some(-1), Some(1)), Atan2Case::Arctangent);
    assert_eq!(atan2_case(Some(0), Some(7)), Atan2Case::Arctangent);
    assert_eq!(atan2_case(Some(0), Some(-1)), Atan2Case::ArctangentPlusPi);
    assert_eq!(atan2_case(Some(3), Some(-1)), Atan2Case::ArctangentPlusPi);
    assert_eq!(atan2_case(Some(-1), Some(-1)), Atan2Case::ArctangentMinusPi);
    assert_eq!(atan2_case(Some(i128::MIN), Some(i128::MIN)), Atan2Case::ArctangentMinusPi);
    assert_eq!(atan2_case(Some(i128::MAX), Some(i128::MAX)), Atan2Case::Arctangent);
}

#[test]
fn atan2_of_zero_and_zero_is_zero() {
    let mut cc = Consts::new().unwrap();
    let zero = BigFloat::new(P);
    assert!(atan2(&zero, &zero, P, &mut cc).is_zero());
}

#[test]
fn atan2_of_not_a_number_is_not_a_number() {
    let mut cc = Consts::new().unwrap();
    let one = BigFloat::from_i8(1, P);
    assert!(atan2(&astro_float::NAN, &one, P, &mut cc).is_nan());
    assert!(atan2(&one, &astro_float::NAN, P, &mut cc).is_nan());
}

#[test]
fn atan2_by_the_signs() {
    let mut cc = Consts::new().unwrap();
    let one = BigFloat::from_i8(1, P);
    let minus = BigFloat::from_i8(-1, P);
    let two = BigFloat::from_i8(2, P);
    let pi = cc.pi(P, RM);

    let plain = two.div(&minus, P, RM).atan(P, RM, &mut cc);
    assert!(same(&atan2(&two, &minus, P, &mut cc), &plain));
    assert!(!same(&plain, &two));

    let lower = two.div(&one, P, RM).atan(P, RM, &mut cc).sub(&pi, P, RM);
    assert!(same(&atan2(&two, &one, P, &mut cc), &lower));

    let upper = minus.div(&two, P, RM).atan(P, RM, &mut cc).add(&pi, P, RM);
    assert!(same(&atan2(&minus, &two, P, &mut cc), &upper));
    assert!(!same(&upper, &lower));
}

#[test]
fn from_str_radix_refuses_ten() {
    assert_eq!(from_str_radix("1.5", 10).err(), Some(RadixError::RadixTen));
    assert_eq!(from_str_radix("no number", 10).err(), Some(RadixError::RadixTen));
}

#[test]
fn from_str_radix_reads_decimal_text_with_any_other_radix() {
    let expected = BigFloat::from_f64(1.5, P);
    for radix in [0, 2, 9, 11, 16, u32::MAX] {
        let read = from_str_radix("1.5", radix).unwrap();
        assert!(same(&read, &expected));
    }
    assert!(from_str_radix("no number", 2).unwrap().is_nan());
}

#[test]
fn reading_outcome_keeps_a_number_and_replaces_an_error() {
    let three = BigFloat::from_i8(3, P);
    match reading_outcome(Ok(three.clone())) {
        Ok(number) => assert!(same(&number, &three)),
        Err(_) => panic!("a number that was read is returned"),
    }
    assert!(matches!(
        reading_outcome(Err(astro_float::Error::InvalidArgument)),
        Err(RadixError::Failed)
    ));
    assert!(matches!(
        reading_outcome(Err(astro_float::Error::DivisionByZero)),
        Err(RadixError::Failed)
    ));
}
