//! Quaternions and vectors: conversion between a quaternion and a vector of
//! four elements, and the product of a quaternion with a vector of three.
use vstd::prelude::*;
use vstd::std_specs::ops::{AddSpec, MulSpec, SubSpec};
use core::ops::{Add, Mul, Sub};
use crate::quaternion::Quaternion;
use crate::scalar::{add_total, is_default, is_unit, mul_total, sub_total, unit, unit_known};
use crate::vector::arithmetic::{
    cross_req, cross_spec, dot_from, dot_req, each_mul, each_mul_req, square_from, zip_add,
    zip_add_req,
};
use crate::vector::Vector;

verus! {

impl<T> From<Vector<T, 4>> for Quaternion<T> where T: Copy {
    /// The quaternion whose components are the four elements of the vector.
    #[inline]
    fn from(value: Vector<T, 4>) -> (r: Self)
        ensures
            r.components() == value@,
    {
        proof {
            value.lemma_len();
        }
        let r = Quaternion::from_array(value.to_array());
        assert(r.components() =~= value@);
        r
    }
}

impl<T> vstd::std_specs::convert::FromSpecImpl<Vector<T, 4>> for Quaternion<T> where T: Copy {
    open spec fn obeys_from_spec() -> bool {
        true
    }

    open spec fn from_spec(value: Vector<T, 4>) -> Self {
        Quaternion { x: value@[0], y: value@[1], z: value@[2], w: value@[3] }
    }
}

impl<T> From<Quaternion<T>> for Vector<T, 4> where T: Copy {
    /// The vector whose four elements are the components of the quaternion.
    #[inline]
    fn from(value: Quaternion<T>) -> (r: Self)
        ensures
            r@ == value.components(),
    {
        let r = Vector::from_array([value.x, value.y, value.z, value.w]);
        proof {
            assert(r@ =~= value.components());
            Vector::<T, 4>::lemma_of_seq(value.components());
            r.lemma_ext_equal(Vector::<T, 4>::of_seq(value.components()));
        }
        r
    }
}

impl<T> vstd::std_specs::convert::FromSpecImpl<Quaternion<T>> for Vector<T, 4> where T: Copy {
    open spec fn obeys_from_spec() -> bool {
        true
    }

    open spec fn from_spec(value: Quaternion<T>) -> Self {
        Vector::<T, 4>::of_seq(value.components())
    }
}

/// The operators of `T` return what their specifications say.
pub open spec fn rotation_steps_known<
    T: Add<Output = T> + Mul<Output = T> + Sub<Output = T> + From<u8>,
>() -> bool {
    &&& T::obeys_add_spec()
    &&& T::obeys_sub_spec()
    &&& T::obeys_mul_spec()
}

/// Every operation of the product of a quaternion and a vector returns what
/// its specification says.
pub open spec fn rotation_known<
    T: Add<Output = T> + Mul<Output = T> + Sub<Output = T> + From<u8>,
>() -> bool {
    rotation_steps_known::<T>() && unit_known::<T>()
}

/// The vector part of `q`.
pub open spec fn vector_part<T>(q: Quaternion<T>) -> Seq<T> {
    seq![q.x, q.y, q.z]
}

/// The scalar by which the product of `q` and a vector multiplies that
/// vector: the square of the scalar part less the square of the length of
/// the vector part, summed from `y` on.
pub open spec fn rotation_own_factor<
    T: Add<Output = T> + Mul<Output = T> + Sub<Output = T> + From<u8>,
>(y: T, q: Quaternion<T>) -> T {
    q.w.mul_spec(q.w).sub_spec(square_from(y, vector_part(q)))
}

/// The scalar by which the product of `q` and `v` multiplies the vector
/// part of `q`, with `o` and `p` as the scalar one: the dot product of `v`
/// with that part, summed from `z` on, multiplied by the sum of `o` and
/// `p`.
pub open spec fn rotation_axis_factor_with<
    T: Add<Output = T> + Mul<Output = T> + Sub<Output = T> + From<u8>,
>(o: T, p: T, z: T, q: Quaternion<T>, v: Seq<T>) -> T {
    dot_from(z, v, vector_part(q), 3).mul_spec(o.add_spec(p))
}

/// The product of the quaternion `q` and the vector `v` of three elements,
/// with `o` and `p` as the scalar one, the two dot products in it being
/// summed from `y` and from `z` on: `v` times its factor, plus the vector
/// part of `q` times its factor, plus the cross product of that part with
/// `v` times twice the scalar part.
pub open spec fn rotation_with<T: Add<Output = T> + Mul<Output = T> + Sub<Output = T> + From<u8>>(
    o: T,
    p: T,
    y: T,
    z: T,
    q: Quaternion<T>,
    v: Seq<T>,
) -> Seq<T> {
    let b = vector_part(q);
    zip_add(
        zip_add(
            each_mul(v, rotation_own_factor(y, q)),
            each_mul(b, rotation_axis_factor_with(o, p, z, q, v)),
        ),
        each_mul(cross_spec(b, v), q.w.add_spec(q.w)),
    )
}

/// The product of the quaternion `q` and the vector `v` of three elements,
/// the two dot products in it being summed from `y` and from `z` on.
pub open spec fn rotation_spec<T: Add<Output = T> + Mul<Output = T> + Sub<Output = T> + From<u8>>(
    y: T,
    z: T,
    q: Quaternion<T>,
    v: Seq<T>,
) -> Seq<T> {
    rotation_with(unit::<T>(), unit::<T>(), y, z, q, v)
}

/// Each step of the product of `q` and `v` accepts its operands, with `o`
/// and `p` as the scalar one, the two dot products in it being summed from
/// `y` and from `z` on.
pub open spec fn rotation_req<T: Add<Output = T> + Mul<Output = T> + Sub<Output = T> + From<u8>>(
    o: T,
    p: T,
    y: T,
    z: T,
    q: Quaternion<T>,
    v: Seq<T>,
) -> bool {
    let b = vector_part(q);
    let first = each_mul(v, rotation_own_factor(y, q));
    let second = each_mul(b, rotation_axis_factor_with(o, p, z, q, v));
    &&& dot_req(y, b, b)
    &&& dot_req(z, v, b)
    &&& o.add_req(p)
    &&& cross_req(b, v)
    &&& q.w.mul_req(q.w)
    &&& q.w.mul_spec(q.w).sub_req(square_from(y, b))
    &&& each_mul_req(v, rotation_own_factor(y, q))
    &&& dot_from(z, v, b, 3).mul_req(o.add_spec(p))
    &&& each_mul_req(b, rotation_axis_factor_with(o, p, z, q, v))
    &&& q.w.add_req(q.w)
    &&& each_mul_req(cross_spec(b, v), q.w.add_spec(q.w))
    &&& zip_add_req(first, second)
    &&& zip_add_req(zip_add(first, second), each_mul(cross_spec(b, v), q.w.add_spec(q.w)))
}

/// Each step of the product of `q` and `v` accepts its operands, whatever
/// default value a dot product is summed from and whatever the conversion
/// of the whole number one returns.
pub open spec fn rotation_steps_req<
    T: Add<Output = T> + Mul<Output = T> + Sub<Output = T> + Default + From<u8>,
>(q: Quaternion<T>, v: Seq<T>) -> bool {
    forall|y: T, z: T, o: T, p: T|
        #![trigger is_default(y), is_default(z), is_unit(o), is_unit(p)]
        is_default(y) && is_default(z) && is_unit(o) && is_unit(p) ==> rotation_req(
            o,
            p,
            y,
            z,
            q,
            v,
        )
}

impl<T> Mul<Vector<T, 3>> for Quaternion<T> where T: Add<Output = T> + Mul<Output = T> + Sub<Output = T> + Default + From<u8> + Copy {
    type Output = Vector<T, 3>;

    /// The product of a quaternion and a vector of three elements.
    ///
    /// The two dot products in it are each summed from a default value of
    /// `T` on.
    fn mul(self, rhs: Vector<T, 3>) -> (r: Vector<T, 3>)
        ensures
            rotation_known::<T>() ==> exists|y: T, z: T|
                #![trigger is_default(y), is_default(z)]
                is_default(y) && is_default(z) && r@ == rotation_spec(y, z, self, rhs@),
    {
        let w = self.w;
        let b = Vector::from_array([self.x, self.y, self.z]);
        proof {
            rhs.lemma_len();
            b.lemma_len();
            assert(b@ =~= vector_part(self));
            assert forall|z: T| is_default(z) implies dot_req(z, b@, b@) && dot_req(z, rhs@, b@) by {
                if rotation_steps_known::<T>() {
                    assert(is_unit(unit::<T>()));
                    assert(rotation_req(unit::<T>(), unit::<T>(), z, z, self, rhs@));
                }
            }
        }
        let b2 = b.length_squared();
        let rb = rhs.dot(b);
        let one = T::from(1u8);
        let other = T::from(1u8);
        proof {
            if rotation_steps_known::<T>() {
                let y = choose|y: T| #[trigger] is_default(y) && b2 == square_from(y, b@);
                let z = choose|z: T| #[trigger] is_default(z) && rb == dot_from(z, rhs@, b@, 3);
                assert(is_unit(one) && is_unit(other));
                assert(rotation_req(one, other, y, z, self, rhs@));
            }
        }
        let two = one + other;
        let br = b.cross(rhs);
        rhs * (w * w - b2) + (b * (rb * two)) + (br * (w + w))
    }
}

impl<T> vstd::std_specs::ops::MulSpecImpl<Vector<T, 3>> for Quaternion<T> where T: Add<Output = T> + Mul<Output = T> + Sub<Output = T> + Default + From<u8> + Copy {
    /// The result depends on the default values that the two dot products
    /// start from, so it is stated by `mul` itself and not as a function of
    /// the operands.
    open spec fn obeys_mul_spec() -> bool {
        false
    }

    /// Where the operators of `T` return what their specifications say,
    /// each step has to accept its operands, for the scalar one where that
    /// is known and for every scalar in its place where it is not; where
    /// they do not, `+`, `-` and `*` have to accept every operand.
    open spec fn mul_req(self, rhs: Vector<T, 3>) -> bool {
        if rotation_steps_known::<T>() {
            rotation_steps_req(self, rhs@)
        } else {
            add_total::<T>() && sub_total::<T>() && mul_total::<T>()
        }
    }

    open spec fn mul_spec(self, rhs: Vector<T, 3>) -> Vector<T, 3> {
        rhs
    }
}

} // verus!
