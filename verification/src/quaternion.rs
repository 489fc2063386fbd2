//! Quaternions.
//!
//! A [`Quaternion<T>`] has a vector part `x`, `y`, `z` and a scalar part `w`,
//! over any scalar type `T`.
use vstd::prelude::*;
use vstd::std_specs::ops::{AddSpec, MulSpec};
use core::ops::{Add, Mul};
use crate::scalar::{add_total, clone_exact, is_unit, mul_total, unit, unit_known};
use crate::traits::fns::trig::{Cos, Sin};

pub mod arithmetic;
pub mod ordering;
pub mod vector;

verus! {

/// A quaternion over the scalar type `T`.
#[derive(Debug)]
pub struct Quaternion<T> {
    /// X component
    pub x: T,
    /// Y component
    pub y: T,
    /// Z component
    pub z: T,
    /// W component
    pub w: T,
}

impl<T> Quaternion<T> {
    /// The four components in the order `x`, `y`, `z`, `w`.
    pub open spec fn components(self) -> Seq<T> {
        seq![self.x, self.y, self.z, self.w]
    }

    /// The components of two quaternions in pairs, in the order `x`, `y`,
    /// `z`, `w`.
    #[inline]
    pub fn zip(self, rhs: Self) -> (r: [(T, T); 4])
        ensures
            r@ == seq![(self.x, rhs.x), (self.y, rhs.y), (self.z, rhs.z), (self.w, rhs.w)],
    {
        let r = [(self.x, rhs.x), (self.y, rhs.y), (self.z, rhs.z), (self.w, rhs.w)];
        assert(r@ =~= seq![(self.x, rhs.x), (self.y, rhs.y), (self.z, rhs.z), (self.w, rhs.w)]);
        r
    }

    /// Hands out the components as an array, in the order `x`, `y`, `z`,
    /// `w`.
    #[inline]
    pub fn to_array(self) -> (r: [T; 4])
        ensures
            r@ == self.components(),
    {
        let r = [self.x, self.y, self.z, self.w];
        assert(r@ =~= self.components());
        r
    }
}

impl<T> Quaternion<T> where T: Copy {
    /// Makes a quaternion of the four elements of an array, taken as `x`,
    /// `y`, `z` and `w`.
    #[inline]
    pub fn from_array(arr: [T; 4]) -> (r: Quaternion<T>)
        ensures
            r == (Quaternion { x: arr@[0], y: arr@[1], z: arr@[2], w: arr@[3] }),
    {
        Quaternion { x: arr[0], y: arr[1], z: arr[2], w: arr[3] }
    }
}

impl<T> From<[T; 4]> for Quaternion<T> where T: Copy {
    #[inline]
    fn from(value: [T; 4]) -> (r: Self)
        ensures
            r == (Quaternion { x: value@[0], y: value@[1], z: value@[2], w: value@[3] }),
    {
        Quaternion { x: value[0], y: value[1], z: value[2], w: value[3] }
    }
}

impl<T> vstd::std_specs::convert::FromSpecImpl<[T; 4]> for Quaternion<T> where T: Copy {
    open spec fn obeys_from_spec() -> bool {
        true
    }

    open spec fn from_spec(value: [T; 4]) -> Self {
        Quaternion { x: value@[0], y: value@[1], z: value@[2], w: value@[3] }
    }
}

impl<T> From<(T, T, T, T)> for Quaternion<T> {
    #[inline]
    fn from(value: (T, T, T, T)) -> (r: Self)
        ensures
            r == (Quaternion { x: value.0, y: value.1, z: value.2, w: value.3 }),
    {
        Quaternion { x: value.0, y: value.1, z: value.2, w: value.3 }
    }
}

impl<T> vstd::std_specs::convert::FromSpecImpl<(T, T, T, T)> for Quaternion<T> {
    open spec fn obeys_from_spec() -> bool {
        true
    }

    open spec fn from_spec(value: (T, T, T, T)) -> Self {
        Quaternion { x: value.0, y: value.1, z: value.2, w: value.3 }
    }
}

impl<T> From<Quaternion<T>> for [T; 4] {
    #[inline]
    fn from(value: Quaternion<T>) -> (r: Self)
        ensures
            r@ == value.components(),
    {
        let r = value.to_array();
        assert(r =~= choose|a: [T; 4]| a@ == value.components());
        r
    }
}

impl<T> vstd::std_specs::convert::FromSpecImpl<Quaternion<T>> for [T; 4] {
    open spec fn obeys_from_spec() -> bool {
        true
    }

    open spec fn from_spec(value: Quaternion<T>) -> Self {
        choose|a: [T; 4]| a@ == value.components()
    }
}

impl<T> Clone for Quaternion<T> where T: Clone {
    #[inline]
    fn clone(&self) -> (r: Self)
        ensures
            cloned::<T>(self.x, r.x),
            cloned::<T>(self.y, r.y),
            cloned::<T>(self.z, r.z),
            cloned::<T>(self.w, r.w),
    {
        Quaternion { x: self.x.clone(), y: self.y.clone(), z: self.z.clone(), w: self.w.clone() }
    }
}

impl<T> Copy for Quaternion<T> where T: Copy {
}

/// The operators, the sine and the cosine of `T` return what their
/// specifications say, and a clone is equal to the value it was made from.
pub open spec fn axis_angle_steps_known<
    T: Sin + Cos + From<u8> + Add<Output = T> + Mul<Output = T> + Clone,
>() -> bool {
    &&& T::obeys_add_spec()
    &&& T::obeys_mul_spec()
    &&& T::obeys_sin_spec()
    &&& T::obeys_cos_spec()
    &&& clone_exact::<T>()
}

/// Every operation of [`Quaternion::from_axis_angle`] returns what its
/// specification says.
pub open spec fn axis_angle_known<
    T: Sin + Cos + From<u8> + Add<Output = T> + Mul<Output = T> + Clone,
>() -> bool {
    axis_angle_steps_known::<T>() && unit_known::<T>()
}

/// The value whose sine and cosine [`Quaternion::from_axis_angle`] takes,
/// with `o` and `p` as the scalar one: the angle multiplied by the sum of
/// `o` and `p`.
pub open spec fn axis_angle_argument_with<
    T: Sin + Cos + From<u8> + Add<Output = T> + Mul<Output = T>,
>(o: T, p: T, angle: T) -> T {
    angle.mul_spec(o.add_spec(p))
}

/// The value whose sine and cosine [`Quaternion::from_axis_angle`] takes:
/// the angle multiplied by the sum of one and one.
pub open spec fn axis_angle_argument<
    T: Sin + Cos + From<u8> + Add<Output = T> + Mul<Output = T>,
>(angle: T) -> T {
    axis_angle_argument_with(unit::<T>(), unit::<T>(), angle)
}

/// The quaternion that [`Quaternion::from_axis_angle`] returns.
pub open spec fn axis_angle_spec<T: Sin + Cos + From<u8> + Add<Output = T> + Mul<Output = T>>(
    axis: Seq<T>,
    angle: T,
) -> Quaternion<T> {
    let a = axis_angle_argument(angle);
    Quaternion {
        x: axis[0].mul_spec(a.sin_spec()),
        y: axis[1].mul_spec(a.sin_spec()),
        z: axis[2].mul_spec(a.sin_spec()),
        w: a.cos_spec(),
    }
}

/// Each step of [`Quaternion::from_axis_angle`] accepts its operands, with
/// `o` and `p` as the scalar one.
pub open spec fn axis_angle_req<T: Sin + Cos + From<u8> + Add<Output = T> + Mul<Output = T>>(
    o: T,
    p: T,
    axis: Seq<T>,
    angle: T,
) -> bool {
    let a = axis_angle_argument_with(o, p, angle);
    &&& o.add_req(p)
    &&& angle.mul_req(o.add_spec(p))
    &&& axis[0].mul_req(a.sin_spec())
    &&& axis[1].mul_req(a.sin_spec())
    &&& axis[2].mul_req(a.sin_spec())
}

impl<T> Quaternion<T> where T: Sin + Cos + From<u8> + Add<Output = T> + Mul<Output = T> + Clone {
    /// The quaternion of an axis and an angle: the axis scaled by the sine
    /// of the angle multiplied by two, with the cosine of the same value as
    /// the scalar part.
    ///
    /// Where the operators, the sine and the cosine of `T` return what
    /// their specifications say and a clone is equal to the value it was
    /// made from, each step has to accept its operands, for the scalar one
    /// where that is known and for every scalar in its place where it is
    /// not; otherwise `+` and `*` have to accept every operand.
    #[inline]
    pub fn from_axis_angle(axis: [T; 3], angle: T) -> (r: Self)
        requires
            axis_angle_steps_known::<T>() ==> forall|o: T, p: T|
                #![trigger is_unit(o), is_unit(p)]
                is_unit(o) && is_unit(p) ==> axis_angle_req(o, p, axis@, angle),
            !axis_angle_steps_known::<T>() ==> add_total::<T>() && mul_total::<T>(),
        ensures
            axis_angle_known::<T>() ==> r == axis_angle_spec(axis@, angle),
    {
        let one = T::from(1u8);
        let other = T::from(1u8);
        proof {
            if axis_angle_steps_known::<T>() {
                assert(is_unit(one) && is_unit(other));
                assert(axis_angle_req(one, other, axis@, angle));
            }
        }
        let a5 = angle * (one + other);
        let s = a5.sin();
        let c = a5.cos();
        Quaternion {
            x: axis[0].clone() * s.clone(),
            y: axis[1].clone() * s.clone(),
            z: axis[2].clone() * s.clone(),
            w: c,
        }
    }
}

} // verus!
