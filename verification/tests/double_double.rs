use orml::double_double::{
    add2, div, mul, mul12, quick_two_sum, renormalise, split, sqrt, sub2, two_prod, two_prod_fma,
    two_sum, DoubleDouble,
};
use orml::traits::fns::abs::Abs;
use orml::traits::fns::{MulAdd, SquareRoot};
use std::ops::{Add, Div, Mul, Neg, Sub};

/// A native double as a limb.
#[derive(Clone, Copy, Debug, PartialEq, PartialOrd)]
struct D(f64);

impl Add for D {
    type Output = D;

    fn add(self, rhs: D) -> D {
        D(self.0 + rhs.0)
    }
}

impl Sub for D {
    type Output = D;

    fn sub(self, rhs: D) -> D {
        D(self.0 - rhs.0)
    }
}

impl Mul for D {
    type Output = D;

    fn mul(self, rhs: D) -> D {
        D(self.0 * rhs.0)
    }
}

impl Div for D {
    type Output = D;

    fn div(self, rhs: D) -> D {
        D(self.0 / rhs.0)
    }
}

impl Neg for D {
    type Output = D;

    fn neg(self) -> D {
        D(-self.0)
    }
}

impl From<u32> for D {
    fn from(value: u32) -> D {
        D(f64::from(value))
    }
}

impl Abs for D {
    fn abs(self) -> D {
        D(self.0.abs())
    }
}

impl SquareRoot for D {
    fn sqrt(&self) -> D {
        D(self.0.sqrt())
    }
}

impl MulAdd for D {
    fn mul_add(self, a: D, b: D) -> D {
        D(self.0.mul_add(a.0, b.0))
    }
}

fn pair(p: (D, D)) -> (f64, f64) {
    ((p.0).0, (p.1).0)
}

fn dd(hi: f64, lo: f64) -> (D, D) {
    (D(hi), D(lo))
}

/// The sum of the two parts as an exact multiple of a power of two, for
/// parts of moderate size.
fn exact(hi: f64, lo: f64, scale: f64) -> i128 {
    (hi * scale) as i128 + (lo * scale) as i128
}

#[test]
fn two_sum_recovers_the_term_that_rounding_drops() {
    assert_eq!(pair(two_sum(D(1e16), D(1.0))), (1e16, 1.0));
    assert_eq!(pair(two_sum(D(1.0), D(1e16))), (1e16, 1.0));
}

#[test]
fn two_sum_of_tenths() {
    assert_eq!(pair(two_sum(D(0.1), D(0.2))), (0.30000000000000004, -2.7755575615628914e-17));
}

#[test]
fn two_sum_is_exact_on_whole_numbers() {
    let scale = 1.0;
    for (a, b) in [(9007199254740993.0_f64, 3.0_f64), (3.0, 9007199254740993.0), (-1e16, 7.0), (5.0, -5.0)] {
        let (s, e) = pair(two_sum(D(a), D(b)));
        assert_eq!(s, a + b);
        assert_eq!(exact(s, e, scale), exact(a, b, scale));
    }
}

#[test]
fn quick_two_sum_recovers_the_term_that_rounding_drops() {
    assert_eq!(pair(quick_two_sum(D(1e16), D(1.0))), (1e16, 1.0));
    assert_eq!(pair(quick_two_sum(D(1.0), D(1e-17))), (1.0, 1e-17));
}

#[test]
fn quick_two_sum_out_of_order_loses_the_small_term() {
    assert_eq!(pair(quick_two_sum(D(1.0), D(1e16))), (1e16, 0.0));
}

#[test]
fn quick_two_sum_is_exact_on_ordered_whole_numbers() {
    for (a, b) in [(9007199254740993.0_f64, 3.0_f64), (-1e16, 7.0), (5.0, -5.0), (8.0, 0.0)] {
        let (s, e) = pair(quick_two_sum(D(a), D(b)));
        assert_eq!(s, a + b);
        assert_eq!(exact(s, e, 1.0), exact(a, b, 1.0));
    }
}

#[test]
fn split_halves_add_up_to_the_value() {
    for a in [0.1_f64, 1e8, 1.0 + 9.313225746154785e-10, std::f64::consts::PI, -123456.789] {
        let (hi, lo) = pair(split(D(a)));
        assert_eq!(hi + lo, a);
        let bits = hi.to_bits();
        assert_eq!(bits & ((1u64 << 26) - 1), 0, "the high half keeps 26 bits of {a}");
    }
}

#[test]
fn split_of_given_values() {
    assert_eq!(pair(split(D(0.1))), (0.09999999962747097, 3.7252903539730653e-10));
    assert_eq!(pair(split(D(1e8))), (100000000.0, 0.0));
    assert_eq!(pair(split(D(1.0 + 9.313225746154785e-10))), (1.0, 9.313225746154785e-10));
    assert_eq!(
        pair(split(D(std::f64::consts::PI))),
        (3.1415926814079285, -2.781813535079891e-08)
    );
}

#[test]
fn two_prod_recovers_the_rounding_error() {
    assert_eq!(pair(two_prod(D(0.1), D(0.1))), (0.010000000000000002, -8.326672684688674e-19));
    assert_eq!(pair(two_prod(D(0.1), D(0.3))), (0.03, 1.6653345369377347e-18));
    assert_eq!(pair(two_prod(D(1e8), D(1e8))), (1e16, 0.0));
}

#[test]
fn two_prod_fma_agrees_with_two_prod() {
    for (a, b) in [(0.1, 0.1), (0.1, 0.3), (1e8, 1e8), (3.0, 7.0)] {
        assert_eq!(pair(two_prod_fma(D(a), D(b))), pair(two_prod(D(a), D(b))));
    }
    assert_eq!(
        pair(two_prod_fma(D(std::f64::consts::PI), D(std::f64::consts::E))),
        (8.539734222673566, 3.119184308355765e-16)
    );
}

#[test]
fn mul12_of_an_exact_product() {
    assert_eq!(pair(mul12(D(1e8), D(1e8))), (1e16, 0.0));
    assert_eq!(pair(mul12(D(3.0), D(7.0))), (21.0, 0.0));
}

#[test]
fn mul12_counts_one_cross_product_twice() {
    assert_eq!(pair(mul12(D(0.1), D(0.1))), (0.01, 3.72529041642311e-11));
    assert_eq!(
        pair(mul12(D(1.0 + 9.313225746154785e-10), D(1.0))),
        (1.0000000009313226, 9.313225746154785e-10)
    );
}

#[test]
fn add2_keeps_what_one_double_drops() {
    assert_eq!(pair(add2(dd(1e16, 1.0), dd(1.0, 0.0))), (1.0000000000000002e16, 0.0));
    assert_eq!(pair(add2(dd(1.0, 0.0), dd(1e16, 1.0))), (1.0000000000000002e16, 0.0));
    assert_eq!(
        pair(add2(dd(0.1, 0.0), dd(0.2, 0.0))),
        (0.30000000000000004, -2.7755575615628914e-17)
    );
}

#[test]
fn add2_of_the_zero_pair_changes_nothing() {
    let zero = dd(0.0, 0.0);
    for x in [dd(1.0, 8.673617379884035e-19), dd(1e16, 1.0), dd(-3.5, 0.0), dd(0.0, 0.0)] {
        assert_eq!(pair(add2(x, zero)), pair(x));
        assert_eq!(pair(add2(zero, x)), pair(x));
    }
}

#[test]
fn sub2_mirrors_add2() {
    assert_eq!(pair(sub2(dd(1e16, 1.0), dd(1.0, 0.0))), (1e16, 0.0));
    assert_eq!(pair(sub2(dd(1.0, 0.0), dd(1e16, 1.0))), (-1e16, 0.0));
    assert_eq!(pair(sub2(dd(0.3, 0.0), dd(0.1, 0.0))), (0.19999999999999998, 0.0));
    assert_eq!(pair(sub2(dd(3.0, 0.0), dd(3.0, 0.0))), (0.0, 0.0));
}

#[test]
fn mul_of_given_pairs() {
    assert_eq!(pair(mul(dd(3.0, 0.0), dd(5.0, 0.0))), (15.0, 0.0));
    assert_eq!(
        pair(mul(dd(1.5, 8.673617379884035e-19), dd(2.0, 4.336808689942018e-19))),
        (3.0, 6.505213034913027e-19)
    );
}

#[test]
fn mul_by_one_keeps_a_pair_of_few_bits() {
    let one = dd(1.0, 0.0);
    for x in [dd(3.0, 0.0), dd(-0.75, 0.0), dd(1e8, 0.0), dd(0.0, 0.0)] {
        assert_eq!(pair(mul(x, one)), pair(x));
    }
}

#[test]
fn mul_by_one_changes_a_pair_of_many_bits() {
    let one = dd(1.0, 0.0);
    assert_eq!(pair(mul(dd(0.1, 0.0), one)), (0.10000000037252904, 0.0));
    assert_eq!(pair(mul(dd(3.0, 8.673617379884035e-19), one)), (3.0, 0.0));
}

#[test]
fn div_of_given_pairs() {
    assert_eq!(pair(div(dd(15.0, 0.0), dd(5.0, 0.0))), (3.0, 0.0));
    assert_eq!(
        pair(div(dd(1.0, 0.0), dd(3.0, 0.0))),
        (0.3333333358168602, 1.8503717214949378e-17)
    );
}

#[test]
fn div_undoes_mul_on_pairs_of_few_bits() {
    for (x, y) in [(3.0, 7.0), (1.5, 2.5), (10.0, 4.0), (-6.0, 0.5)] {
        let back = pair(div(mul(dd(x, 0.0), dd(y, 0.0)), dd(y, 0.0)));
        assert!((back.0 + back.1 - x).abs() <= 1e-30, "{x} * {y} / {y} gave {back:?}");
    }
}

#[test]
fn div_undoes_mul_only_roughly_on_pairs_of_many_bits() {
    let back = pair(div(mul(dd(0.1, 0.0), dd(0.3, 0.0)), dd(0.3, 0.0)));
    assert_eq!(back, (0.099999999627471, -6.47630121134792e-18));
    assert!((back.0 + back.1 - 0.1).abs() < 1e-9);
}

#[test]
fn div_by_the_zero_pair_follows_the_scalar() {
    let q = pair(div(dd(1.0, 0.0), dd(0.0, 0.0)));
    assert!(q.0.is_nan() && q.1.is_nan());
    let n = pair(div(dd(0.0, 0.0), dd(0.0, 0.0)));
    assert!(n.0.is_nan() && n.1.is_nan());
}

#[test]
fn sqrt_of_four_is_two() {
    assert_eq!(pair(sqrt(dd(4.0, 0.0))), (2.0, 0.0));
    assert_eq!(pair(sqrt(dd(9.0, 0.0))), (3.0, 0.0));
}

#[test]
fn sqrt_of_two() {
    assert_eq!(pair(sqrt(dd(2.0, 0.0))), (1.414213565172639, 3.651701641550893e-17));
}

#[test]
fn sqrt_of_a_pair_not_above_zero_is_the_zero_pair() {
    for x in [dd(-1.0, 0.0), dd(0.0, 0.0), dd(-0.0, 5.0), dd(f64::NEG_INFINITY, 0.0), dd(f64::NAN, 1.0)] {
        let r = pair(sqrt(x));
        assert_eq!(r, (0.0, 0.0));
        assert!(r.0.is_sign_positive() && r.1.is_sign_positive());
    }
}

fn limbs(r: (D, D, D, D)) -> (f64, f64, f64, f64) {
    ((r.0).0, (r.1).0, (r.2).0, (r.3).0)
}

#[test]
fn renormalise_keeps_a_single_limb() {
    let r = renormalise((D(1.0), D(0.0), D(0.0), D(0.0), D(0.0)));
    assert_eq!(limbs(r), (1.0, 0.0, 0.0, 0.0));
    let z = renormalise((D(0.0), D(0.0), D(0.0), D(0.0), D(0.0)));
    assert_eq!(limbs(z), (0.0, 0.0, 0.0, 0.0));
}

#[test]
fn renormalise_moves_limbs_up_past_zeros() {
    let r = renormalise((D(1e16), D(1.0), D(0.0), D(0.0), D(0.0)));
    assert_eq!(limbs(r), (1e16, 1.0, 0.0, 0.0));
    let s = renormalise((D(1e16), D(0.0), D(0.0), D(0.0), D(1.0)));
    assert_eq!(limbs(s), (1e16, 1.0, 0.0, 0.0));
}

#[test]
fn renormalise_reads_every_limb() {
    let with_seven =
        renormalise((D(1e32), D(7.0), D(1e16), D(1.0), D(8.673617379884035e-19)));
    let with_more = renormalise((D(1e32), D(3e16), D(1e16), D(1.0), D(8.673617379884035e-19)));
    assert_eq!(
        limbs(with_seven),
        (1.0000000000000002e32, -8014398509481975.0, 8.673617379884035e-19, 0.0)
    );
    assert_eq!(
        limbs(with_more),
        (1.0000000000000004e32, 3971202981036033.0, 8.673617379884035e-19, 0.0)
    );
}

#[test]
fn renormalise_fills_slots_for_sums_that_round() {
    let s = renormalise((
        D(1e32),
        D(1e16),
        D(1.0),
        D(1.1102230246251565e-16),
        D(1.232595164407831e-32),
    ));
    assert_eq!(
        limbs(s),
        (1.0000000000000002e32, -8014398509481983.0, 1.1102230246251565e-16, 1.232595164407831e-32)
    );
    let t = renormalise((D(1e16), D(3.0), D(1.0), D(1.0), D(0.0)));
    assert_eq!(limbs(t), (1.0000000000000004e16, 1.0, 0.0, 0.0));
}

#[test]
fn renormalise_keeps_the_total_of_exact_sums() {
    let r = renormalise((D(8.0), D(4.0), D(2.0), D(1.0), D(0.5)));
    assert_eq!(limbs(r), (15.5, 0.0, 0.0, 0.0));
}

#[test]
fn renormalise_of_five_limbs_that_need_five_slots_drops_the_last() {
    let r = renormalise((
        D(1.0),
        D(1.1102230246251565e-16),
        D(1.232595164407831e-32),
        D(1.3684555315672042e-48),
        D(1.5192908393215678e-64),
    ));
    assert_eq!(
        limbs(r),
        (1.0, 1.1102230246251565e-16, 1.232595164407831e-32, 1.3684555315672042e-48)
    );
    let s = renormalise((D(1e300), D(1e280), D(1e260), D(1e240), D(1e220)));
    assert_eq!(limbs(s), (1e300, 1e280, 1e260, 1e240));
}

#[test]
fn a_pair_goes_through_double_double_unchanged() {
    for p in [dd(1.5, 0.0), dd(1e16, 1.0), dd(-0.0, 0.0), dd(f64::INFINITY, -3.0)] {
        let x: DoubleDouble<D> = p.into();
        let back: (D, D) = x.into();
        assert_eq!(pair(back), pair(p));
        assert_eq!((back.0).0.to_bits(), (p.0).0.to_bits());
        assert_eq!((back.1).0.to_bits(), (p.1).0.to_bits());
    }
}

#[test]
fn operators_of_double_double_are_add2_and_sub2() {
    let x: DoubleDouble<D> = dd(1e16, 1.0).into();
    let y: DoubleDouble<D> = dd(1.0, 0.0).into();
    let sum: (D, D) = (x + y).into();
    assert_eq!(pair(sum), pair(add2(dd(1e16, 1.0), dd(1.0, 0.0))));
    let x: DoubleDouble<D> = dd(1e16, 1.0).into();
    let y: DoubleDouble<D> = dd(1.0, 0.0).into();
    let difference: (D, D) = (x - y).into();
    assert_eq!(pair(difference), pair(sub2(dd(1e16, 1.0), dd(1.0, 0.0))));
}

#[test]
fn two_prod_is_exact_on_whole_numbers() {
    for (a, b) in [
        (9007199254740991.0_f64, 9007199254740989.0_f64),
        (4503599627370497.0, 4503599627370499.0),
        (123456789.0, 987654321.0),
        (-4503599627370497.0, 4503599627370499.0),
    ] {
        let (p, e) = pair(two_prod(D(a), D(b)));
        assert_eq!(p, a * b);
        assert_eq!(p as i128 + e as i128, a as i128 * b as i128);
        assert_eq!(pair(two_prod_fma(D(a), D(b))), (p, e));
    }
    assert_eq!(
        pair(two_prod(D(9007199254740991.0), D(9007199254740989.0))),
        (8.112963841460665e31, 3.0)
    );
}

#[test]
fn two_prod_loses_an_error_below_the_least_double() {
    assert_eq!(pair(two_prod(D(1e-150), D(3e-150))), (3e-300, -6.751962e-317));
    assert_eq!(
        pair(two_prod(D(3.3604299998495654e-151), D(3.787438652562605e-157))),
        (1.2727422470661193e-307, 0.0)
    );
}

#[test]
fn split_halves_have_26_bits_each() {
    for a in [
        0.1_f64,
        9007199254740991.0,
        9007199220860773.0,
        4503599627370497.0,
        -123456.789,
        5e-324,
        2.2250738585072014e-308,
    ] {
        let (hi, lo) = pair(split(D(a)));
        assert_eq!(hi + lo, a);
        for half in [hi, lo] {
            let mantissa = half.to_bits() & ((1u64 << 52) - 1);
            let exponent = (half.to_bits() >> 52) & 0x7ff;
            if exponent != 0 {
                assert_eq!(mantissa & ((1u64 << 27) - 1), 0, "{half} is a half of {a}");
            } else {
                assert!(mantissa.trailing_zeros() + 26 >= 64 - mantissa.leading_zeros());
            }
        }
    }
}

#[test]
fn sums_that_overflow_are_not_exact() {
    let (s, e) = pair(two_sum(D(f64::MAX), D(f64::MAX)));
    assert_eq!(s, f64::INFINITY);
    assert!(e.is_nan());
    let (s, e) = pair(quick_two_sum(D(f64::MAX), D(f64::MAX)));
    assert_eq!(s, f64::INFINITY);
    assert_eq!(e, f64::NEG_INFINITY);
}

#[test]
fn split_of_a_double_near_the_greatest_is_not_a_number() {
    let (hi, lo) = pair(split(D(1e308)));
    assert!(hi.is_nan() && lo.is_nan());
}

#[test]
fn two_prod_is_exact_with_an_operand_of_zero() {
    assert_eq!(pair(two_prod(D(0.0), D(0.1))), (0.0, 0.0));
    assert_eq!(pair(two_prod(D(0.1), D(0.0))), (0.0, 0.0));
    assert_eq!(pair(two_prod_fma(D(0.0), D(0.1))), (0.0, 0.0));
    assert_eq!(pair(two_prod_fma(D(0.1), D(0.0))), (0.0, 0.0));
}

#[test]
fn two_prod_is_exact_with_an_operand_below_the_least_normal_double() {
    // three times the least positive double, and (2^52 + 1) * 2^10
    let (a, b) = (1.5e-323, 4611686018427388928.0);
    let expected = (6.835426893334125e-305, -5.06e-321);
    assert_eq!(pair(two_prod(D(a), D(b))), expected);
    assert_eq!(pair(two_prod(D(b), D(a))), expected);
    assert_eq!(pair(two_prod_fma(D(a), D(b))), expected);
    assert_eq!(pair(two_prod_fma(D(b), D(a))), expected);
}

#[test]
fn two_sum_gives_the_same_pair_in_either_order() {
    for (a, b) in [(1.0, 1e16), (0.1, 0.2), (-3.5, 1e-300), (1e308, -1e292)] {
        assert_eq!(pair(two_sum(D(a), D(b))), pair(two_sum(D(b), D(a))));
    }
    assert_eq!(pair(two_sum(D(1.0), D(1e16))), (1e16, 1.0));
}

#[test]
fn mul12_of_operands_of_26_bits_is_the_exact_product() {
    // 2^26 - 1 and 2^25 + 1, and the same two scaled by powers of two
    assert_eq!(pair(mul12(D(67108863.0), D(33554433.0))), (2251799847239679.0, 0.0));
    assert_eq!(pair(mul12(D(67108863.0 * 1024.0), D(33554433.0 / 4096.0))), (562949961809919.75, 0.0));
    assert_eq!(pair(mul12(D(-67108863.0), D(33554433.0))), (-2251799847239679.0, 0.0));
}
