use orml::quaternion::Quaternion;
use orml::traits::fns::SquareRoot;
use std::ops::{Add, Div, Mul};

/// A single-precision float with the capabilities that lengths need.
#[derive(Clone, Copy, Debug, Default, PartialEq)]
struct F32(f32);

impl Add for F32 {
    type Output = F32;

    fn add(self, rhs: F32) -> F32 {
        F32(self.0 + rhs.0)
    }
}

impl Mul for F32 {
    type Output = F32;

    fn mul(self, rhs: F32) -> F32 {
        F32(self.0 * rhs.0)
    }
}

impl Div for F32 {
    type Output = F32;

    fn div(self, rhs: F32) -> F32 {
        F32(self.0 / rhs.0)
    }
}

impl From<u8> for F32 {
    fn from(value: u8) -> F32 {
        F32(f32::from(value))
    }
}

impl SquareRoot for F32 {
    fn sqrt(&self) -> F32 {
        F32(self.0.sqrt())
    }
}

fn quat(values: [f32; 4]) -> Quaternion<F32> {
    [F32(values[0]), F32(values[1]), F32(values[2]), F32(values[3])].into()
}

#[test]
fn arithmetic_add() {
    let q1 = Quaternion::from_array([1.0, 1.0, 1.0, 1.0]);
    let q2 = Quaternion::from_array([2.0, 2.0, 2.0, 2.0]);
    let e1 = Quaternion::from_array([3.0, 3.0, 3.0, 3.0]);

    assert_eq!(e1, q1 + q2);
}

#[test]
fn arithmetic_sub() {
    let q1 = Quaternion::from_array([3.0, 3.0, 3.0, 3.0]);
    let q2 = Quaternion::from_array([1.0, 1.0, 1.0, 1.0]);
    let e1 = Quaternion::from_array([2.0, 2.0, 2.0, 2.0]);

    assert_eq!(e1, q1 - q2);
}

#[test]
fn arithmetic_mul() {
    let q1 = Quaternion::from_array([1.0, 1.0, 1.0, 1.0]);
    let q2 = Quaternion::from_array([2.0, 2.0, 2.0, 2.0]);
    let e1 = Quaternion::from_array([4.0, 4.0, 4.0, -4.0]);

    assert_eq!(e1, q1 * q2);
}

#[test]
fn arithmetic_mul_assign() {
    let mut q1 = Quaternion::from_array([1.0, 1.0, 1.0, 1.0]);
    let q2 = Quaternion::from_array([2.0, 2.0, 2.0, 2.0]);
    let e1 = Quaternion::from_array([4.0, 4.0, 4.0, -4.0]);

    q1 *= q2;

    assert_eq!(e1, q1);
}

#[test]
fn arithmetic_mul_t() {
    let q1 = Quaternion::from_array([1.0, 1.0, 1.0, 1.0]);
    let e1 = Quaternion::from_array([4.0, 4.0, 4.0, 4.0]);

    assert_eq!(e1, q1 * 4.0);
}

#[test]
fn arithmetic_div_t() {
    let q1 = Quaternion::from_array([4.0, 4.0, 4.0, 4.0]);
    let e1 = Quaternion::from_array([1.0, 1.0, 1.0, 1.0]);

    assert_eq!(e1, q1 / 4.0);
}

#[test]
fn arithmetic_neg() {
    let q1 = Quaternion::from_array([1.0, 1.0, 1.0, 1.0]);
    let e1 = Quaternion::from_array([-1.0, -1.0, -1.0, -1.0]);

    assert_eq!(e1, -q1);
}

#[test]
fn arithmetic_dot() {
    let vec1: Quaternion<f32> = [1.0, 3.0, -5.0, 0.0].into();
    let vec2: Quaternion<f32> = [4.0, -2.0, -1.0, 0.0].into();
    let expected1 = 3.0;
    assert_eq!(expected1, vec1.dot(&vec2));

    let expected2 = 35.0;
    assert_eq!(expected2, vec1.dot(&vec1));
}

#[test]
fn arithmetic_length_squared() {
    let expected1: Quaternion<f32> = [1.0, 1.0, 1.0, 0.0].into();
    assert_eq!(expected1.length_squared(), 3.0);

    let expected2: Quaternion<f32> = [2.0, 2.0, 2.0, 0.0].into();
    assert_eq!(expected2.length_squared(), 12.0);
}

#[test]
fn arithmetic_length() {
    let expected1: Quaternion<F32> = quat([0.0, 0.0, 3.0, 0.0]);
    assert_eq!(expected1.length(), F32(3.0));

    let expected2: Quaternion<F32> = quat([2.0, 2.0, 1.0, 0.0]);
    assert_eq!(expected2.length(), F32(3.0));
}

#[test]
fn arithmetic_normalise() {
    let expected1: Quaternion<F32> = quat([0.0, 0.0, 3.0, 0.0]);
    assert_eq!(expected1.normalise().length(), F32(1.0));

    let expected2: Quaternion<F32> = quat([3.0, 4.0, 5.0, 0.0]);
    assert_eq!(expected2.normalise().length(), F32(1.0));
}

#[test]
fn arithmetic_reciprocal() {
    let expected1: Quaternion<f32> = [2.0, 2.0, 2.0, 1.0].into();
    assert_eq!(expected1.reciprocal().to_array(), [0.5, 0.5, 0.5, 1.0]);

    let expected2: Quaternion<f32> = [2.0, 4.0, 8.0, 1.0].into();
    assert_eq!(expected2.reciprocal().to_array(), [0.5, 0.25, 0.125, 1.0]);
}

#[test]
fn ordering_partial_eq() {
    let combos: [Quaternion<bool>; 16] = [
        [false, false, false, false].into(),
        [false, false, false, true].into(),
        [false, false, true, false].into(),
        [false, false, true, true].into(),
        [false, true, false, false].into(),
        [false, true, false, true].into(),
        [false, true, true, false].into(),
        [false, true, true, true].into(),
        [true, false, false, false].into(),
        [true, false, false, true].into(),
        [true, false, true, false].into(),
        [true, false, true, true].into(),
        [true, true, false, false].into(),
        [true, true, false, true].into(),
        [true, true, true, false].into(),
        [true, true, true, true].into(),
    ];

    for i in 0..combos.len() {
        for j in 0..combos.len() {
            assert_eq!(
                combos[i] == combos[j],
                i == j,
                "\n\ti: {:?} j: {:?}",
                combos[i],
                combos[j]
            );
        }
    }
}

#[test]
fn hamilton_product_of_the_units() {
    let i = Quaternion::from_array([1, 0, 0, 0]);
    let j = Quaternion::from_array([0, 1, 0, 0]);
    let k = Quaternion::from_array([0, 0, 1, 0]);
    let one = Quaternion::from_array([0, 0, 0, 1]);
    assert_eq!(i * j, k);
    assert_eq!(j * k, i);
    assert_eq!(k * i, j);
    assert_eq!(j * i, -k);
    assert_eq!(i * i, -one);
    assert_eq!(one * k, k);
}

#[test]
fn hamilton_product_of_general_quaternions() {
    let l = Quaternion::from_array([1, 2, 3, 4]);
    let r = Quaternion::from_array([5, 6, 7, 8]);
    assert_eq!(l * r, Quaternion::from_array([24, 48, 48, -6]));
    assert_eq!(r * l, Quaternion::from_array([32, 32, 56, -6]));
}

#[test]
fn products_with_borrowed_operands_agree() {
    let l = Quaternion::from_array([1, 2, 3, 4]);
    let r = Quaternion::from_array([5, 6, 7, 8]);
    let expected = Quaternion::from_array([24, 48, 48, -6]);
    assert_eq!(l * &r, expected);
    assert_eq!(&l * &r, expected);
    assert_eq!(&l * r, expected);
    let mut m = l;
    assert_eq!(&mut m * r, expected);
    assert_eq!(m, l);
}

#[test]
fn conversions_keep_the_order_of_the_components() {
    let q: Quaternion<i32> = (1, 2, 3, 4).into();
    assert_eq!((q.x, q.y, q.z, q.w), (1, 2, 3, 4));
    assert_eq!(q.to_array(), [1, 2, 3, 4]);
    let back: [i32; 4] = q.into();
    assert_eq!(back, [1, 2, 3, 4]);
    assert_eq!(q.zip(Quaternion::from_array([5, 6, 7, 8])), [(1, 5), (2, 6), (3, 7), (4, 8)]);
    assert_eq!(q.clone(), q);
}
