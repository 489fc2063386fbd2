//! Arithmetic on quaternions.
//!
//! Sums, differences and negatives are taken component by component. The
//! product of two quaternions is the Hamilton product. Each operation asks
//! that the scalar type accepts the operands it is given, and states its
//! result for a scalar type whose operators are functions of their
//! operands. A component that enters an operation more than once is
//! cloned, so the results are stated for a scalar type whose clones are
//! equal to the values they are made from.
use vstd::prelude::*;
use vstd::std_specs::ops::{AddSpec, DivSpec, MulSpec, NegSpec, SubSpec};
use core::ops::{Add, Div, Mul, MulAssign, Neg, Sub};
use crate::quaternion::Quaternion;
use crate::scalar::{
    add_total, clone_exact, div_total, is_unit, mul_total, sub_total, unit, unit_known,
};
use crate::traits::fns::SquareRoot;

verus! {

/// The dot product of two quaternions: the sum of the products of their
/// components, in the order `x`, `y`, `z`, `w`.
pub open spec fn dot_spec<T: Add<Output = T> + Mul<Output = T>>(
    l: Quaternion<T>,
    r: Quaternion<T>,
) -> T {
    l.x.mul_spec(r.x).add_spec(l.y.mul_spec(r.y)).add_spec(l.z.mul_spec(r.z)).add_spec(
        l.w.mul_spec(r.w),
    )
}

/// The operations of the dot product return what their specifications
/// say, and a clone is equal to the value it was made from.
pub open spec fn dot_known<T: Add<Output = T> + Mul<Output = T> + Clone>() -> bool {
    T::obeys_add_spec() && T::obeys_mul_spec() && clone_exact::<T>()
}

/// The dot product of `l` and `r` may be formed: each step accepts its
/// operands, or `+` and `*` accept every operand.
pub open spec fn dot_req<T: Add<Output = T> + Mul<Output = T> + Clone>(
    l: Quaternion<T>,
    r: Quaternion<T>,
) -> bool {
    if dot_known::<T>() {
        &&& l.x.mul_req(r.x)
        &&& l.y.mul_req(r.y)
        &&& l.z.mul_req(r.z)
        &&& l.w.mul_req(r.w)
        &&& l.x.mul_spec(r.x).add_req(l.y.mul_spec(r.y))
        &&& l.x.mul_spec(r.x).add_spec(l.y.mul_spec(r.y)).add_req(l.z.mul_spec(r.z))
        &&& l.x.mul_spec(r.x).add_spec(l.y.mul_spec(r.y)).add_spec(l.z.mul_spec(r.z)).add_req(
            l.w.mul_spec(r.w),
        )
    } else {
        add_total::<T>() && mul_total::<T>()
    }
}

impl<T> Quaternion<T> where T: Add<Output = T> + Mul<Output = T> + Clone {
    /// The dot product of two quaternions, also known as the scalar product.
    #[inline]
    pub fn dot(&self, rhs: &Self) -> (r: T)
        requires
            dot_req(*self, *rhs),
        ensures
            dot_known::<T>() ==> r == dot_spec(*self, *rhs),
    {
        self.x.clone() * rhs.x.clone() + self.y.clone() * rhs.y.clone() + self.z.clone()
            * rhs.z.clone() + self.w.clone() * rhs.w.clone()
    }

    /// The square of the length: the dot product of the quaternion with
    /// itself.
    #[inline]
    pub fn length_squared(&self) -> (r: T)
        requires
            dot_req(*self, *self),
        ensures
            dot_known::<T>() ==> r == dot_spec(*self, *self),
    {
        self.dot(self)
    }
}

impl<T> Quaternion<T> where T: Add<Output = T> + Mul<Output = T> + SquareRoot + Clone {
    /// The length: the square root of the dot product of the quaternion
    /// with itself.
    #[inline]
    pub fn length(&self) -> (r: T)
        requires
            dot_req(*self, *self),
        ensures
            dot_known::<T>() && T::obeys_sqrt_spec() ==> r == dot_spec(*self, *self).sqrt_spec(),
    {
        self.length_squared().sqrt()
    }
}

/// One divided by each component of `q`.
pub open spec fn reciprocal_spec<T: Div<Output = T> + From<u8>>(q: Quaternion<T>) -> Quaternion<T> {
    Quaternion {
        x: unit::<T>().div_spec(q.x),
        y: unit::<T>().div_spec(q.y),
        z: unit::<T>().div_spec(q.z),
        w: unit::<T>().div_spec(q.w),
    }
}

/// One may be divided by each component of `q`: where the scalar one is
/// known, it may be divided by each component; where it is not, every
/// scalar may be.
pub open spec fn reciprocal_req<T: Div<Output = T> + From<u8>>(q: Quaternion<T>) -> bool {
    if unit_known::<T>() {
        &&& unit::<T>().div_req(q.x)
        &&& unit::<T>().div_req(q.y)
        &&& unit::<T>().div_req(q.z)
        &&& unit::<T>().div_req(q.w)
    } else {
        &&& forall|o: T| #[trigger] o.div_req(q.x)
        &&& forall|o: T| #[trigger] o.div_req(q.y)
        &&& forall|o: T| #[trigger] o.div_req(q.z)
        &&& forall|o: T| #[trigger] o.div_req(q.w)
    }
}

impl<T> Quaternion<T> where T: Div<Output = T> + From<u8> {
    /// The reciprocal of each component: one, as `T` converts it from the
    /// whole number, divided by the component.
    #[inline]
    pub fn reciprocal(self) -> (r: Self)
        requires
            reciprocal_req(self),
        ensures
            unit_known::<T>() && T::obeys_div_spec() ==> r == reciprocal_spec(self),
    {
        Quaternion {
            x: T::from(1u8) / self.x,
            y: T::from(1u8) / self.y,
            z: T::from(1u8) / self.z,
            w: T::from(1u8) / self.w,
        }
    }
}

/// The operators and the square root of `T` return what their
/// specifications say, and a clone is equal to the value it was made from.
pub open spec fn normalise_steps_known<
    T: Add<Output = T> + Mul<Output = T> + SquareRoot + Div<Output = T> + From<u8> + Clone,
>() -> bool {
    &&& T::obeys_add_spec()
    &&& T::obeys_mul_spec()
    &&& T::obeys_div_spec()
    &&& T::obeys_sqrt_spec()
    &&& clone_exact::<T>()
}

/// Every operation of [`Quaternion::normalise`] returns what its
/// specification says.
pub open spec fn normalise_known<
    T: Add<Output = T> + Mul<Output = T> + SquareRoot + Div<Output = T> + From<u8> + Clone,
>() -> bool {
    normalise_steps_known::<T>() && unit_known::<T>()
}

/// The factor by which [`Quaternion::normalise`] multiplies the components
/// of `q`, with `o` as the scalar one: `o` divided by the length.
pub open spec fn normalise_factor_with<
    T: Add<Output = T> + Mul<Output = T> + SquareRoot + Div<Output = T> + From<u8> + Clone,
>(o: T, q: Quaternion<T>) -> T {
    o.div_spec(dot_spec(q, q).sqrt_spec())
}

/// The factor by which [`Quaternion::normalise`] multiplies the components
/// of `q`: one divided by the length.
pub open spec fn normalise_factor<
    T: Add<Output = T> + Mul<Output = T> + SquareRoot + Div<Output = T> + From<u8> + Clone,
>(q: Quaternion<T>) -> T {
    normalise_factor_with(unit::<T>(), q)
}

/// Each step of [`Quaternion::normalise`] accepts its operands, with `o` as
/// the scalar one.
pub open spec fn normalise_req<
    T: Add<Output = T> + Mul<Output = T> + SquareRoot + Div<Output = T> + From<u8> + Clone,
>(o: T, q: Quaternion<T>) -> bool {
    &&& dot_req(q, q)
    &&& o.div_req(dot_spec(q, q).sqrt_spec())
    &&& scale_req(q, normalise_factor_with(o, q))
}

impl<T> Quaternion<T> where
    T: Add<Output = T> + Mul<Output = T> + SquareRoot + Div<Output = T> + From<u8> + Clone,
 {
    /// The quaternion scaled to the length one: each component multiplied
    /// by one over the length.
    ///
    /// Where the operators and the square root of `T` return what their
    /// specifications say and a clone is equal to the value it was made
    /// from, each step has to accept its operands, for the scalar one where
    /// that is known and for every scalar in its place where it is not;
    /// otherwise `+`, `*` and `/` have to accept every operand.
    pub fn normalise(self) -> (r: Self)
        requires
            normalise_steps_known::<T>() ==> forall|o: T| #[trigger]
                is_unit(o) ==> normalise_req(o, self),
            !normalise_steps_known::<T>() ==> add_total::<T>() && mul_total::<T>() && div_total::<
                T,
            >(),
        ensures
            normalise_known::<T>() ==> r == scale_spec(self, normalise_factor(self)),
    {
        proof {
            if normalise_steps_known::<T>() {
                assert(is_unit(unit::<T>()));
                assert(normalise_req(unit::<T>(), self));
            }
        }
        let len = self.length();
        let one = T::from(1u8);
        proof {
            if normalise_steps_known::<T>() {
                assert(is_unit(one));
                assert(normalise_req(one, self));
            }
        }
        self * (one / len)
    }
}

/// The sum of two quaternions, component by component.
pub open spec fn sum_spec<T: Add<Output = T>>(l: Quaternion<T>, r: Quaternion<T>) -> Quaternion<T> {
    Quaternion {
        x: l.x.add_spec(r.x),
        y: l.y.add_spec(r.y),
        z: l.z.add_spec(r.z),
        w: l.w.add_spec(r.w),
    }
}

impl<T> Add<Quaternion<T>> for Quaternion<T> where T: Add<Output = T> {
    type Output = Self;

    /// The sum of two quaternions, component by component.
    fn add(self, rhs: Quaternion<T>) -> (r: Self) {
        Quaternion { x: self.x + rhs.x, y: self.y + rhs.y, z: self.z + rhs.z, w: self.w + rhs.w }
    }
}

impl<T> vstd::std_specs::ops::AddSpecImpl<Quaternion<T>> for Quaternion<T> where T: Add<Output = T> {
    open spec fn obeys_add_spec() -> bool {
        T::obeys_add_spec()
    }

    open spec fn add_req(self, rhs: Quaternion<T>) -> bool {
        &&& self.x.add_req(rhs.x)
        &&& self.y.add_req(rhs.y)
        &&& self.z.add_req(rhs.z)
        &&& self.w.add_req(rhs.w)
    }

    open spec fn add_spec(self, rhs: Quaternion<T>) -> Self {
        sum_spec(self, rhs)
    }
}

/// The difference of two quaternions, component by component.
pub open spec fn difference_spec<T: Sub<Output = T>>(
    l: Quaternion<T>,
    r: Quaternion<T>,
) -> Quaternion<T> {
    Quaternion {
        x: l.x.sub_spec(r.x),
        y: l.y.sub_spec(r.y),
        z: l.z.sub_spec(r.z),
        w: l.w.sub_spec(r.w),
    }
}

impl<T> Sub<Quaternion<T>> for Quaternion<T> where T: Sub<Output = T> {
    type Output = Self;

    /// The difference of two quaternions, component by component.
    fn sub(self, rhs: Quaternion<T>) -> (r: Self) {
        Quaternion { x: self.x - rhs.x, y: self.y - rhs.y, z: self.z - rhs.z, w: self.w - rhs.w }
    }
}

impl<T> vstd::std_specs::ops::SubSpecImpl<Quaternion<T>> for Quaternion<T> where T: Sub<Output = T> {
    open spec fn obeys_sub_spec() -> bool {
        T::obeys_sub_spec()
    }

    open spec fn sub_req(self, rhs: Quaternion<T>) -> bool {
        &&& self.x.sub_req(rhs.x)
        &&& self.y.sub_req(rhs.y)
        &&& self.z.sub_req(rhs.z)
        &&& self.w.sub_req(rhs.w)
    }

    open spec fn sub_spec(self, rhs: Quaternion<T>) -> Self {
        difference_spec(self, rhs)
    }
}

/// Every operation of the product of two quaternions returns what its
/// specification says, and a clone is equal to the value it was made from.
pub open spec fn product_known<
    T: Add<Output = T> + Sub<Output = T> + Mul<Output = T> + Clone,
>() -> bool {
    T::obeys_add_spec() && T::obeys_sub_spec() && T::obeys_mul_spec() && clone_exact::<T>()
}

/// The Hamilton product of `l` and `r`.
pub open spec fn product_spec<T: Add<Output = T> + Sub<Output = T> + Mul<Output = T>>(
    l: Quaternion<T>,
    r: Quaternion<T>,
) -> Quaternion<T> {
    Quaternion {
        x: l.w.mul_spec(r.x).add_spec(l.x.mul_spec(r.w)).add_spec(l.y.mul_spec(r.z)).sub_spec(l.z.mul_spec(r.y)),
        y: l.w.mul_spec(r.y).sub_spec(l.x.mul_spec(r.z)).add_spec(l.y.mul_spec(r.w)).add_spec(l.z.mul_spec(r.x)),
        z: l.w.mul_spec(r.z).add_spec(l.x.mul_spec(r.y)).sub_spec(l.y.mul_spec(r.x)).add_spec(l.z.mul_spec(r.w)),
        w: l.w.mul_spec(r.w).sub_spec(l.x.mul_spec(r.x)).sub_spec(l.y.mul_spec(r.y)).sub_spec(l.z.mul_spec(r.z)),
    }
}

/// Each step of the Hamilton product of `l` and `r` accepts its operands.
pub open spec fn product_steps_req<T: Add<Output = T> + Sub<Output = T> + Mul<Output = T>>(
    l: Quaternion<T>,
    r: Quaternion<T>,
) -> bool {
    &&& l.w.mul_req(r.x)
    &&& l.x.mul_req(r.w)
    &&& l.y.mul_req(r.z)
    &&& l.z.mul_req(r.y)
    &&& l.w.mul_spec(r.x).add_req(l.x.mul_spec(r.w))
    &&& l.w.mul_spec(r.x).add_spec(l.x.mul_spec(r.w)).add_req(l.y.mul_spec(r.z))
    &&& l.w.mul_spec(r.x).add_spec(l.x.mul_spec(r.w)).add_spec(l.y.mul_spec(r.z)).sub_req(l.z.mul_spec(r.y))
    &&& l.w.mul_req(r.y)
    &&& l.x.mul_req(r.z)
    &&& l.y.mul_req(r.w)
    &&& l.z.mul_req(r.x)
    &&& l.w.mul_spec(r.y).sub_req(l.x.mul_spec(r.z))
    &&& l.w.mul_spec(r.y).sub_spec(l.x.mul_spec(r.z)).add_req(l.y.mul_spec(r.w))
    &&& l.w.mul_spec(r.y).sub_spec(l.x.mul_spec(r.z)).add_spec(l.y.mul_spec(r.w)).add_req(l.z.mul_spec(r.x))
    &&& l.w.mul_req(r.z)
    &&& l.x.mul_req(r.y)
    &&& l.y.mul_req(r.x)
    &&& l.z.mul_req(r.w)
    &&& l.w.mul_spec(r.z).add_req(l.x.mul_spec(r.y))
    &&& l.w.mul_spec(r.z).add_spec(l.x.mul_spec(r.y)).sub_req(l.y.mul_spec(r.x))
    &&& l.w.mul_spec(r.z).add_spec(l.x.mul_spec(r.y)).sub_spec(l.y.mul_spec(r.x)).add_req(l.z.mul_spec(r.w))
    &&& l.w.mul_req(r.w)
    &&& l.x.mul_req(r.x)
    &&& l.y.mul_req(r.y)
    &&& l.z.mul_req(r.z)
    &&& l.w.mul_spec(r.w).sub_req(l.x.mul_spec(r.x))
    &&& l.w.mul_spec(r.w).sub_spec(l.x.mul_spec(r.x)).sub_req(l.y.mul_spec(r.y))
    &&& l.w.mul_spec(r.w).sub_spec(l.x.mul_spec(r.x)).sub_spec(l.y.mul_spec(r.y)).sub_req(l.z.mul_spec(r.z))
}

/// The Hamilton product of `l` and `r` may be formed: each step accepts its
/// operands, or `+`, `-` and `*` accept every operand.
pub open spec fn product_req<T: Add<Output = T> + Sub<Output = T> + Mul<Output = T> + Clone>(
    l: Quaternion<T>,
    r: Quaternion<T>,
) -> bool {
    if product_known::<T>() {
        product_steps_req(l, r)
    } else {
        add_total::<T>() && sub_total::<T>() && mul_total::<T>()
    }
}

/// The Hamilton product of two quaternions.
fn product<T>(l: &Quaternion<T>, r: &Quaternion<T>) -> (q: Quaternion<T>) where
    T: Add<Output = T> + Sub<Output = T> + Mul<Output = T> + Clone,

    requires
        product_req(*l, *r),
    ensures
        product_known::<T>() ==> q == product_spec(*l, *r),
{
    Quaternion {
        x: (l.w.clone() * r.x.clone()) + (l.x.clone() * r.w.clone()) + (l.y.clone()
            * r.z.clone()) - (l.z.clone() * r.y.clone()),
        y: (l.w.clone() * r.y.clone()) - (l.x.clone() * r.z.clone()) + (l.y.clone()
            * r.w.clone()) + (l.z.clone() * r.x.clone()),
        z: (l.w.clone() * r.z.clone()) + (l.x.clone() * r.y.clone()) - (l.y.clone()
            * r.x.clone()) + (l.z.clone() * r.w.clone()),
        w: (l.w.clone() * r.w.clone()) - (l.x.clone() * r.x.clone()) - (l.y.clone()
            * r.y.clone()) - (l.z.clone() * r.z.clone()),
    }
}

impl<T> Mul<Quaternion<T>> for Quaternion<T> where T: Add<Output = T> + Sub<Output = T> + Mul<Output = T> + Clone {
    type Output = Self;

    /// The Hamilton product of two quaternions.
    fn mul(self, rhs: Quaternion<T>) -> (r: Self) {
        product(&self, &rhs)
    }
}

impl<T> vstd::std_specs::ops::MulSpecImpl<Quaternion<T>> for Quaternion<T> where T: Add<Output = T> + Sub<Output = T> + Mul<Output = T> + Clone {
    open spec fn obeys_mul_spec() -> bool {
        product_known::<T>()
    }

    open spec fn mul_req(self, rhs: Quaternion<T>) -> bool {
        product_req(self, rhs)
    }

    open spec fn mul_spec(self, rhs: Quaternion<T>) -> Quaternion<T> {
        product_spec(self, rhs)
    }
}

impl<T> Mul<&Quaternion<T>> for Quaternion<T> where T: Add<Output = T> + Sub<Output = T> + Mul<Output = T> + Clone {
    type Output = Quaternion<T>;

    /// The Hamilton product of a quaternion and a borrowed one.
    fn mul(self, rhs: &Quaternion<T>) -> (r: Quaternion<T>) {
        product(&self, rhs)
    }
}

impl<T> vstd::std_specs::ops::MulSpecImpl<&Quaternion<T>> for Quaternion<T> where T: Add<Output = T> + Sub<Output = T> + Mul<Output = T> + Clone {
    open spec fn obeys_mul_spec() -> bool {
        product_known::<T>()
    }

    open spec fn mul_req(self, rhs: &Quaternion<T>) -> bool {
        product_req(self, *rhs)
    }

    open spec fn mul_spec(self, rhs: &Quaternion<T>) -> Quaternion<T> {
        product_spec(self, *rhs)
    }
}

impl<T> Mul<&Quaternion<T>> for &Quaternion<T> where T: Add<Output = T> + Sub<Output = T> + Mul<Output = T> + Clone {
    type Output = Quaternion<T>;

    /// The Hamilton product of two borrowed quaternions.
    fn mul(self, rhs: &Quaternion<T>) -> (r: Quaternion<T>) {
        product(self, rhs)
    }
}

impl<T> vstd::std_specs::ops::MulSpecImpl<&Quaternion<T>> for &Quaternion<T> where T: Add<Output = T> + Sub<Output = T> + Mul<Output = T> + Clone {
    open spec fn obeys_mul_spec() -> bool {
        product_known::<T>()
    }

    open spec fn mul_req(self, rhs: &Quaternion<T>) -> bool {
        product_req(*self, *rhs)
    }

    open spec fn mul_spec(self, rhs: &Quaternion<T>) -> Quaternion<T> {
        product_spec(*self, *rhs)
    }
}

impl<'b, T> Mul<Quaternion<T>> for &'b Quaternion<T> where T: Add<Output = T> + Sub<Output = T> + Mul<Output = T> + Clone {
    type Output = Quaternion<T>;

    /// The Hamilton product of a borrowed quaternion and a quaternion.
    fn mul(self, rhs: Quaternion<T>) -> (r: Quaternion<T>) {
        product(self, &rhs)
    }
}

impl<'b, T> vstd::std_specs::ops::MulSpecImpl<Quaternion<T>> for &'b Quaternion<T> where T: Add<Output = T> + Sub<Output = T> + Mul<Output = T> + Clone {
    open spec fn obeys_mul_spec() -> bool {
        product_known::<T>()
    }

    open spec fn mul_req(self, rhs: Quaternion<T>) -> bool {
        product_req(*self, rhs)
    }

    open spec fn mul_spec(self, rhs: Quaternion<T>) -> Quaternion<T> {
        product_spec(*self, rhs)
    }
}

impl<T> Mul<Quaternion<T>> for &mut Quaternion<T> where T: Add<Output = T> + Sub<Output = T> + Mul<Output = T> + Clone {
    type Output = Quaternion<T>;

    /// The Hamilton product of a quaternion borrowed for writing, which stays as it is, and a quaternion.
    fn mul(self, rhs: Quaternion<T>) -> (r: Quaternion<T>)
        ensures
            *final(self) == *old(self),
    {
        product(self, &rhs)
    }
}

impl<T> vstd::std_specs::ops::MulSpecImpl<Quaternion<T>> for &mut Quaternion<T> where T: Add<Output = T> + Sub<Output = T> + Mul<Output = T> + Clone {
    open spec fn obeys_mul_spec() -> bool {
        product_known::<T>()
    }

    open spec fn mul_req(self, rhs: Quaternion<T>) -> bool {
        product_req(*self, rhs)
    }

    open spec fn mul_spec(self, rhs: Quaternion<T>) -> Quaternion<T> {
        product_spec(*self, rhs)
    }
}

impl<T> MulAssign<Quaternion<T>> for Quaternion<T> where T: Add<Output = T> + Sub<Output = T> + Mul<Output = T> + Clone {
    /// Multiplies the quaternion by `rhs` from the right.
    fn mul_assign(&mut self, rhs: Quaternion<T>)
        requires
            product_req(*old(self), rhs),
        ensures
            product_known::<T>() ==> *final(self) == product_spec(*old(self), rhs),
    {
        *self = product(self, &rhs);
    }
}

/// Each component of `q` multiplied by the scalar `t`.
pub open spec fn scale_spec<T: Mul<Output = T>>(q: Quaternion<T>, t: T) -> Quaternion<T> {
    Quaternion { x: q.x.mul_spec(t), y: q.y.mul_spec(t), z: q.z.mul_spec(t), w: q.w.mul_spec(t) }
}

/// Each component of `q` may be multiplied by the scalar `t`.
pub open spec fn scale_steps_req<T: Mul<Output = T>>(q: Quaternion<T>, t: T) -> bool {
    &&& q.x.mul_req(t)
    &&& q.y.mul_req(t)
    &&& q.z.mul_req(t)
    &&& q.w.mul_req(t)
}

/// `q` may be multiplied by the scalar `t`: each component may be, or `*`
/// accepts every operand where a clone of `t` is not known to be `t`.
pub open spec fn scale_req<T: Mul<Output = T> + Clone>(q: Quaternion<T>, t: T) -> bool {
    if clone_exact::<T>() {
        scale_steps_req(q, t)
    } else {
        mul_total::<T>()
    }
}

impl<T> Mul<T> for Quaternion<T> where T: Mul<Output = T> + Clone {
    type Output = Self;

    /// Multiplies each component by the scalar `rhs`.
    fn mul(self, rhs: T) -> (r: Self) {
        Quaternion {
            x: self.x * rhs.clone(),
            y: self.y * rhs.clone(),
            z: self.z * rhs.clone(),
            w: self.w * rhs,
        }
    }
}

impl<T> vstd::std_specs::ops::MulSpecImpl<T> for Quaternion<T> where T: Mul<Output = T> + Clone {
    open spec fn obeys_mul_spec() -> bool {
        T::obeys_mul_spec() && clone_exact::<T>()
    }

    open spec fn mul_req(self, rhs: T) -> bool {
        scale_req(self, rhs)
    }

    open spec fn mul_spec(self, rhs: T) -> Self {
        scale_spec(self, rhs)
    }
}

/// Each component of `q` divided by the scalar `t`.
pub open spec fn shrink_spec<T: Div<Output = T>>(q: Quaternion<T>, t: T) -> Quaternion<T> {
    Quaternion { x: q.x.div_spec(t), y: q.y.div_spec(t), z: q.z.div_spec(t), w: q.w.div_spec(t) }
}

/// `q` may be divided by the scalar `t`: each component may be, or `/`
/// accepts every operand where a clone of `t` is not known to be `t`.
pub open spec fn shrink_req<T: Div<Output = T> + Clone>(q: Quaternion<T>, t: T) -> bool {
    if clone_exact::<T>() {
        &&& q.x.div_req(t)
        &&& q.y.div_req(t)
        &&& q.z.div_req(t)
        &&& q.w.div_req(t)
    } else {
        div_total::<T>()
    }
}

impl<T> Div<T> for Quaternion<T> where T: Div<Output = T> + Clone {
    type Output = Self;

    /// Divides each component by the scalar `rhs`.
    fn div(self, rhs: T) -> (r: Self) {
        Quaternion {
            x: self.x / rhs.clone(),
            y: self.y / rhs.clone(),
            z: self.z / rhs.clone(),
            w: self.w / rhs,
        }
    }
}

impl<T> vstd::std_specs::ops::DivSpecImpl<T> for Quaternion<T> where T: Div<Output = T> + Clone {
    open spec fn obeys_div_spec() -> bool {
        T::obeys_div_spec() && clone_exact::<T>()
    }

    open spec fn div_req(self, rhs: T) -> bool {
        shrink_req(self, rhs)
    }

    open spec fn div_spec(self, rhs: T) -> Self {
        shrink_spec(self, rhs)
    }
}

/// The negative of each component of `q`.
pub open spec fn negative_spec<T: Neg<Output = T>>(q: Quaternion<T>) -> Quaternion<T> {
    Quaternion { x: q.x.neg_spec(), y: q.y.neg_spec(), z: q.z.neg_spec(), w: q.w.neg_spec() }
}

impl<T> Neg for Quaternion<T> where T: Neg<Output = T> {
    type Output = Self;

    /// The negative of each component.
    fn neg(self) -> (r: Self) {
        Quaternion { x: self.x.neg(), y: self.y.neg(), z: self.z.neg(), w: self.w.neg() }
    }
}

impl<T> vstd::std_specs::ops::NegSpecImpl for Quaternion<T> where T: Neg<Output = T> {
    open spec fn obeys_neg_spec() -> bool {
        T::obeys_neg_spec()
    }

    open spec fn neg_req(self) -> bool {
        &&& self.x.neg_req()
        &&& self.y.neg_req()
        &&& self.z.neg_req()
        &&& self.w.neg_req()
    }

    open spec fn neg_spec(self) -> Self {
        negative_spec(self)
    }
}

} // verus!
