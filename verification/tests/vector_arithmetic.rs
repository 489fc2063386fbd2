use orml::traits::fns::SquareRoot;
use orml::vector::typedefs::{Vec3Bool, Vec3i32};
use orml::vector::Vector;
use std::ops::{Add, Div, Mul};

/// A double with the capabilities that lengths need.
#[derive(Clone, Copy, Debug, Default, PartialEq)]
struct F64(f64);

impl Add for F64 {
    type Output = F64;

    fn add(self, rhs: F64) -> F64 {
        F64(self.0 + rhs.0)
    }
}

impl Mul for F64 {
    type Output = F64;

    fn mul(self, rhs: F64) -> F64 {
        F64(self.0 * rhs.0)
    }
}

impl Div for F64 {
    type Output = F64;

    fn div(self, rhs: F64) -> F64 {
        F64(self.0 / rhs.0)
    }
}

impl From<u8> for F64 {
    fn from(value: u8) -> F64 {
        F64(f64::from(value))
    }
}

impl SquareRoot for F64 {
    fn sqrt(&self) -> F64 {
        F64(self.0.sqrt())
    }
}

/// A single-precision float with the capabilities that lengths need.
#[derive(Clone, Copy, Debug, Default, PartialEq)]
struct F32(f32);

impl Add for F32 {
    type Output = F32;

    fn add(self, rhs: F32) -> F32 {
        F32(self.0 + rhs.0)
    }
}

impl Mul for F32 {
    type Output = F32;

    fn mul(self, rhs: F32) -> F32 {
        F32(self.0 * rhs.0)
    }
}

impl Div for F32 {
    type Output = F32;

    fn div(self, rhs: F32) -> F32 {
        F32(self.0 / rhs.0)
    }
}

impl From<u8> for F32 {
    fn from(value: u8) -> F32 {
        F32(f32::from(value))
    }
}

impl SquareRoot for F32 {
    fn sqrt(&self) -> F32 {
        F32(self.0.sqrt())
    }
}

#[test]
fn add() {
    let vec1_1: Vec3i32 = [1, 1, 1].into();
    let vec1_2: Vec3i32 = [2, 2, 2].into();
    let expected1: Vec3i32 = [3, 3, 3].into();

    assert_eq!(expected1, vec1_1 + vec1_2);
}

#[test]
fn add_assign() {
    let vec1_1: Vec3i32 = [1, 1, 1].into();
    let vec1_2: Vec3i32 = [2, 2, 2].into();
    let expected1: Vec3i32 = [3, 3, 3].into();

    let mut vec1_3 = vec1_1;
    vec1_3 += vec1_2;

    assert_eq!(expected1, vec1_3);
}

#[test]
fn add_t() {
    let vec1_1: Vec3i32 = [1, 1, 1].into();
    let expected1: Vec3i32 = [3, 3, 3].into();

    assert_eq!(expected1, vec1_1 + 2);
}

#[test]
fn add_assign_t() {
    let vec1_1: Vec3i32 = [1, 1, 1].into();
    let expected1: Vec3i32 = [3, 3, 3].into();

    let mut vec1_3 = vec1_1;
    vec1_3 += 2;

    assert_eq!(expected1, vec1_3);
}

#[test]
fn sub() {
    let vec1_1: Vec3i32 = [3, 3, 3].into();
    let vec1_2: Vec3i32 = [2, 2, 2].into();
    let expected1: Vec3i32 = [1, 1, 1].into();

    assert_eq!(expected1, vec1_1 - vec1_2);
}

#[test]
fn sub_assign() {
    let vec1_1: Vec3i32 = [3, 3, 3].into();
    let vec1_2: Vec3i32 = [2, 2, 2].into();
    let expected1: Vec3i32 = [1, 1, 1].into();

    let mut vec1_3 = vec1_1;
    vec1_3 -= vec1_2;

    assert_eq!(expected1, vec1_3);
}

#[test]
fn sub_t() {
    let vec1_1: Vec3i32 = [3, 3, 3].into();
    let expected1: Vec3i32 = [1, 1, 1].into();

    assert_eq!(expected1, vec1_1 - 2);
}

#[test]
fn sub_assign_t() {
    let vec1_1: Vec3i32 = [3, 3, 3].into();
    let expected1: Vec3i32 = [1, 1, 1].into();

    let mut vec1_3 = vec1_1;
    vec1_3 -= 2;

    assert_eq!(expected1, vec1_3);
}

#[test]
fn mul() {
    let vec1_1: Vec3i32 = [1, 1, 1].into();
    let vec1_2: Vec3i32 = [2, 2, 2].into();
    let expected1: Vec3i32 = [2, 2, 2].into();

    assert_eq!(expected1, vec1_1 * vec1_2);
}

#[test]
fn mul_assign() {
    let vec1_1: Vec3i32 = [1, 1, 1].into();
    let vec1_2: Vec3i32 = [2, 2, 2].into();
    let expected1: Vec3i32 = [2, 2, 2].into();

    let mut vec1_3 = vec1_1;
    vec1_3 *= vec1_2;

    assert_eq!(expected1, vec1_3);
}

#[test]
fn mul_t() {
    let vec1_1: Vec3i32 = [1, 1, 1].into();
    let expected1: Vec3i32 = [2, 2, 2].into();

    assert_eq!(expected1, vec1_1 * 2);
}

#[test]
fn mul_assign_t() {
    let vec1_1: Vec3i32 = [1, 1, 1].into();
    let expected1: Vec3i32 = [2, 2, 2].into();

    let mut vec1_3 = vec1_1;
    vec1_3 *= 2;

    assert_eq!(expected1, vec1_3);
}

#[test]
fn div() {
    let vec1_1: Vec3i32 = [2, 2, 2].into();
    let vec1_2: Vec3i32 = [2, 2, 2].into();
    let expected1: Vec3i32 = [1, 1, 1].into();

    assert_eq!(expected1, vec1_1 / vec1_2);
}

#[test]
fn div_assign() {
    let vec1_1: Vec3i32 = [2, 2, 2].into();
    let vec1_2: Vec3i32 = [2, 2, 2].into();
    let expected1: Vec3i32 = [1, 1, 1].into();

    let mut vec1_3 = vec1_1;
    vec1_3 /= vec1_2;

    assert_eq!(expected1, vec1_3);
}

#[test]
fn div_t() {
    let vec1_1: Vec3i32 = [2, 2, 2].into();
    let expected1: Vec3i32 = [1, 1, 1].into();

    assert_eq!(expected1, vec1_1 / 2);
}

#[test]
fn div_assign_t() {
    let vec1_1: Vec3i32 = [2, 2, 2].into();
    let expected1: Vec3i32 = [1, 1, 1].into();

    let mut vec1_3 = vec1_1;
    vec1_3 /= 2;

    assert_eq!(expected1, vec1_3);
}

#[test]
fn neg() {
    let vec1_1: Vec3i32 = [1, 1, 1].into();
    let expected1: Vec3i32 = [-1, -1, -1].into();

    assert_eq!(expected1, -vec1_1);
}

#[test]
fn not() {
    let combos: [Vec3Bool; 8] = [
        [false, false, false].into(),
        [false, false, true].into(),
        [false, true, false].into(),
        [false, true, true].into(),
        [true, false, false].into(),
        [true, false, true].into(),
        [true, true, false].into(),
        [true, true, true].into(),
    ];

    for e in combos {
        let dn = !!e;
        assert_eq!(e, dn, "\n\ti: {:?} j: {:?}", e, dn);
    }
}

#[test]
fn not_flips_each_element() {
    let e: Vec3Bool = [false, true, false].into();
    let expected: Vec3Bool = [true, false, true].into();
    assert_eq!(expected, !e);
}

#[test]
fn dot() {
    let vec1: Vec3i32 = [1, 3, -5].into();
    let vec2: Vec3i32 = [4, -2, -1].into();
    let expected1 = 3;
    assert_eq!(expected1, vec1.dot(vec2));

    let expected2 = 35;
    assert_eq!(expected2, vec1.dot(vec1));
}

#[test]
fn cross3() {
    let vec1: Vec3i32 = [1, 0, 0].into();
    let vec2: Vec3i32 = [0, 0, 1].into();
    let expected1: Vec3i32 = [0, -1, 0].into();
    assert_eq!(expected1, vec1.cross(vec2));
}

#[test]
fn cross_of_general_vectors() {
    let a: Vec3i32 = [2, 3, 4].into();
    let b: Vec3i32 = [5, 6, 7].into();
    let expected: Vec3i32 = [-3, 6, -3].into();
    assert_eq!(expected, a.cross(b));
    let reversed: Vec3i32 = [3, -6, 3].into();
    assert_eq!(reversed, b.cross(a));
}

#[test]
fn length_squared() {
    let expected1: Vec3i32 = [1, 1, 1].into();
    assert_eq!(expected1.length_squared(), 3);

    let expected2: Vec3i32 = [2, 2, 2].into();
    assert_eq!(expected2.length_squared(), 12);
}

#[test]
fn length() {
    let expected1: Vector<F64, 3> = [F64(0.0), F64(0.0), F64(3.0)].into();
    assert_eq!(expected1.length(), F64(3.0));

    let expected2: Vector<F32, 3> = [F32(2.0), F32(2.0), F32(1.0)].into();
    assert_eq!(expected2.length(), F32(3.0));
}

#[test]
fn normalise() {
    let expected1: Vector<F64, 3> = [F64(0.0), F64(0.0), F64(3.0)].into();
    assert_eq!(expected1.normalise().length(), F64(1.0));

    let expected2: Vector<F32, 3> = [F32(3.0), F32(4.0), F32(5.0)].into();
    assert_eq!(expected2.normalise().length(), F32(1.0));
}

#[test]
fn normalise_scales_each_element() {
    let v: Vector<F64, 3> = [F64(0.0), F64(0.0), F64(4.0)].into();
    assert_eq!(v.normalise().to_array(), [F64(0.0), F64(0.0), F64(1.0)]);
}

#[test]
fn reciprocal() {
    let expected1: Vector<f64, 3> = [2.0, 2.0, 2.0].into();
    assert_eq!(expected1.reciprocal().to_array(), [0.5, 0.5, 0.5]);

    let expected2: Vector<f32, 3> = [2.0, 4.0, 8.0].into();
    assert_eq!(expected2.reciprocal().to_array(), [0.5, 0.25, 0.125]);
}

#[test]
fn reciprocal_of_whole_numbers() {
    let v: Vector<u32, 3> = [1, 2, 4].into();
    assert_eq!(v.reciprocal().to_array(), [1, 0, 0]);
}

#[test]
fn operators_on_an_empty_vector() {
    let a: Vector<i32, 0> = [].into();
    let b: Vector<i32, 0> = [].into();
    assert_eq!(a + b, a);
    assert_eq!(a.dot(b), 0);
    assert!(a.is_empty());
}

#[test]
fn scalar_operators_apply_to_each_element() {
    let v: Vec3i32 = [6, -4, 9].into();
    let plus: Vec3i32 = [9, -1, 12].into();
    let minus: Vec3i32 = [3, -7, 6].into();
    let times: Vec3i32 = [18, -12, 27].into();
    let over: Vec3i32 = [2, -1, 3].into();
    assert_eq!(plus, v + 3);
    assert_eq!(minus, v - 3);
    assert_eq!(times, v * 3);
    assert_eq!(over, v / 3);
}

#[test]
fn vector_operators_pair_the_elements() {
    let a: Vec3i32 = [6, -4, 9].into();
    let b: Vec3i32 = [3, 2, -1].into();
    let plus: Vec3i32 = [9, -2, 8].into();
    let minus: Vec3i32 = [3, -6, 10].into();
    let times: Vec3i32 = [18, -8, -9].into();
    let over: Vec3i32 = [2, -2, -9].into();
    assert_eq!(plus, a + b);
    assert_eq!(minus, a - b);
    assert_eq!(times, a * b);
    assert_eq!(over, a / b);
}
