use orml::quaternion::Quaternion;
use orml::traits::fns::trig::{Cos, Sin};
use orml::vector::Vector;
use std::ops::{Add, Div, Mul, Sub};

/// A whole number kept on the heap: it can be cloned, and not copied.
#[derive(Clone, Debug, PartialEq)]
struct Owned(Box<i64>);

fn owned(n: i64) -> Owned {
    Owned(Box::new(n))
}

impl Add for Owned {
    type Output = Owned;

    fn add(self, rhs: Owned) -> Owned {
        owned(*self.0 + *rhs.0)
    }
}

impl Sub for Owned {
    type Output = Owned;

    fn sub(self, rhs: Owned) -> Owned {
        owned(*self.0 - *rhs.0)
    }
}

impl Mul for Owned {
    type Output = Owned;

    fn mul(self, rhs: Owned) -> Owned {
        owned(*self.0 * *rhs.0)
    }
}

impl Div for Owned {
    type Output = Owned;

    fn div(self, rhs: Owned) -> Owned {
        owned(*self.0 / *rhs.0)
    }
}

impl From<u8> for Owned {
    fn from(value: u8) -> Owned {
        owned(i64::from(value))
    }
}

/// A stand-in for the sine: three times the value.
impl Sin for Owned {
    fn sin(&self) -> Owned {
        owned(3 * *self.0)
    }
}

/// A stand-in for the cosine: the value less one.
impl Cos for Owned {
    fn cos(&self) -> Owned {
        owned(*self.0 - 1)
    }
}

fn quat(x: i64, y: i64, z: i64, w: i64) -> Quaternion<Owned> {
    Quaternion { x: owned(x), y: owned(y), z: owned(z), w: owned(w) }
}

#[test]
fn quaternions_of_an_owned_scalar_multiply() {
    let expected = quat(24, 48, 48, -6);
    assert_eq!(quat(1, 2, 3, 4) * quat(5, 6, 7, 8), expected);
    assert_eq!(&quat(1, 2, 3, 4) * &quat(5, 6, 7, 8), expected);
    let mut q = quat(1, 2, 3, 4);
    q *= quat(5, 6, 7, 8);
    assert_eq!(q, expected);
}

#[test]
fn dot_product_of_an_owned_scalar_leaves_the_operands() {
    let (a, b) = (quat(1, 2, 3, 4), quat(5, 6, 7, 8));
    assert_eq!(a.dot(&b), owned(70));
    assert_eq!(a.length_squared(), owned(30));
    assert_eq!(a, quat(1, 2, 3, 4));
    assert_eq!(b, quat(5, 6, 7, 8));
}

#[test]
fn quaternions_of_an_owned_scalar_scale() {
    assert_eq!(quat(1, 2, 3, 4) * owned(3), quat(3, 6, 9, 12));
    assert_eq!(quat(3, 6, 9, 13) / owned(3), quat(1, 2, 3, 4));
}

#[test]
fn axis_and_angle_of_an_owned_scalar() {
    // the angle is doubled; the stand-ins then give 3 * 10 and 10 - 1
    let q = Quaternion::from_axis_angle([owned(1), owned(2), owned(-1)], owned(5));
    assert_eq!(q, quat(30, 60, -30, 9));
}

#[test]
fn reciprocal_of_owned_scalars() {
    let v = Vector::from_array([owned(1), owned(2), owned(-1)]);
    assert_eq!(v.reciprocal().to_array(), [owned(1), owned(0), owned(-1)]);
    assert_eq!(quat(1, -1, 2, 1).reciprocal(), quat(1, -1, 0, 1));
}
