//! Compensated arithmetic on pairs of scalars.
//!
//! A pair `(hi, lo)` stands for the sum `hi + lo`, where `lo` carries what
//! rounding took from `hi`. The functions here fix the order of the scalar
//! operations: each contract names, operation by operation, the value that
//! is returned.
//!
//! The scalar is any type with the capabilities of [`Limb`]. A function asks
//! that the scalar's operators accept every operand ([`total`]), as those of
//! a floating-point type do, and states its result for a scalar whose
//! operations, as far as the function uses them, return what their
//! specifications say.
//!
//! What the results are for a scalar that is a finite double is the matter
//! of the module [`exactness`].
use vstd::prelude::*;
use vstd::std_specs::cmp::{PartialEqSpec, PartialOrdSpec};
use vstd::std_specs::convert::FromSpec;
use vstd::std_specs::ops::{AddSpec, DivSpec, MulSpec, NegSpec, SubSpec};
use core::cmp::Ordering;
use core::ops::{Add, Div, Mul, Neg, Sub};
use crate::scalar::{add_total, div_total, mul_total, neg_total, sub_total};
use crate::traits::fns::abs::Abs;
use crate::traits::fns::{MulAdd, SquareRoot};

pub mod exactness;
pub mod product;
pub mod rounding;
pub mod splitting;

verus! {

/// What a scalar needs to serve as one half of a pair.
pub trait Limb:
    Copy
    + PartialOrd
    + From<u32>
    + Add<Output = Self>
    + Sub<Output = Self>
    + Mul<Output = Self>
    + Div<Output = Self>
    + Neg<Output = Self>
    + Abs
    + SquareRoot
{
}

impl<T> Limb for T where
    T: Copy
        + PartialOrd
        + From<u32>
        + Add<Output = T>
        + Sub<Output = T>
        + Mul<Output = T>
        + Div<Output = T>
        + Neg<Output = T>
        + Abs
        + SquareRoot,
{
}

/// The operators of `T` accept every operand.
pub open spec fn total<T: Limb>() -> bool {
    &&& add_total::<T>()
    &&& sub_total::<T>()
    &&& mul_total::<T>()
    &&& div_total::<T>()
    &&& neg_total::<T>()
}

/// The conversion of a whole number to `T` returns what its specification
/// says.
pub open spec fn converts<T: Limb>() -> bool {
    <T as FromSpec<u32>>::obeys_from_spec()
}

/// `+` and `-` of `T` return what their specifications say.
pub open spec fn exact_sums<T: Limb>() -> bool {
    T::obeys_add_spec() && T::obeys_sub_spec()
}

/// `+`, `-` and `*` of `T` and the conversion of a whole number return what
/// their specifications say.
pub open spec fn exact_products<T: Limb>() -> bool {
    exact_sums::<T>() && T::obeys_mul_spec() && converts::<T>()
}

/// The comparison and the absolute value of `T` return what their
/// specifications say.
pub open spec fn exact_order<T: Limb>() -> bool {
    T::obeys_partial_cmp_spec() && T::obeys_abs_spec()
}

/// Every operation that [`sqrt`] carries out returns what its specification
/// says.
pub open spec fn exact_roots<T: Limb>() -> bool {
    &&& exact_products::<T>()
    &&& T::obeys_div_spec()
    &&& T::obeys_partial_cmp_spec()
    &&& T::obeys_sqrt_spec()
}

/// Every operation that [`renormalise`] carries out returns what its
/// specification says.
pub open spec fn exact_limbs<T: Limb>() -> bool {
    exact_sums::<T>() && T::obeys_eq_spec() && converts::<T>()
}

/// The scalar zero.
pub open spec fn zero<T: Limb>() -> T {
    T::from_spec(0u32)
}

/// The scalar one half, as the quotient of one and two.
pub open spec fn half<T: Limb>() -> T {
    T::from_spec(1u32).div_spec(T::from_spec(2u32))
}

/// The factor by which [`split`] multiplies: two to the 27th power, plus one.
pub open spec fn split_factor<T: Limb>() -> T {
    T::from_spec(134_217_729u32)
}

/// `a > b`.
pub open spec fn greater<T: Limb>(a: T, b: T) -> bool {
    a.partial_cmp_spec(&b) == Some(Ordering::Greater)
}

/// `a != b`.
pub open spec fn differs<T: Limb>(a: T, b: T) -> bool {
    !a.eq_spec(&b)
}

/// The sum of `a` and `b` and its rounding error, for `|a| >= |b|`.
pub open spec fn quick_two_sum_spec<T: Limb>(a: T, b: T) -> (T, T) {
    let s = a.add_spec(b);
    (s, b.sub_spec(s.sub_spec(a)))
}

/// The sum of `a` and `b` and its rounding error.
pub open spec fn two_sum_spec<T: Limb>(a: T, b: T) -> (T, T) {
    let s = a.add_spec(b);
    let v = s.sub_spec(a);
    (s, a.sub_spec(s.sub_spec(v)).add_spec(b.sub_spec(v)))
}

/// The two halves of `a`.
pub open spec fn split_spec<T: Limb>(a: T) -> (T, T) {
    let t = a.mul_spec(split_factor());
    let hi = a.sub_spec(t).add_spec(t);
    (hi, a.sub_spec(hi))
}

/// The product of `a` and `b` and its rounding error, by splitting.
pub open spec fn two_prod_spec<T: Limb>(a: T, b: T) -> (T, T) {
    let p = a.mul_spec(b);
    let a = split_spec(a);
    let b = split_spec(b);
    let e = a.0.mul_spec(b.0).sub_spec(p).add_spec(a.0.mul_spec(b.1)).add_spec(
        a.1.mul_spec(b.0),
    ).add_spec(a.1.mul_spec(b.1));
    (p, e)
}

/// The product of `a` and `b` and its rounding error, by a fused
/// multiply-add.
pub open spec fn two_prod_fma_spec<T: Limb + MulAdd>(a: T, b: T) -> (T, T) {
    let p = a.mul_spec(b);
    (p, a.mul_add_spec(b, p.neg_spec()))
}

/// The product of two scalars as a pair.
pub open spec fn mul12_spec<T: Limb>(x: T, y: T) -> (T, T) {
    let a = split_spec(x);
    let b = split_spec(y);
    let p = a.0.mul_spec(b.0);
    let q = a.0.mul_spec(b.1).add_spec(a.1.mul_spec(b.0));
    let r = p.add_spec(q);
    (r, p.sub_spec(r).add_spec(q).add_spec(a.1.mul_spec(b.0)))
}

/// The sum of two pairs.
pub open spec fn add2_spec<T: Limb>(x: (T, T), y: (T, T)) -> (T, T) {
    let r = x.0.add_spec(y.0);
    let s = if greater(x.0.abs_spec(), y.0.abs_spec()) {
        x.0.sub_spec(r).add_spec(y.0).add_spec(y.1).add_spec(x.1)
    } else {
        y.0.sub_spec(r).add_spec(x.0).add_spec(x.1).add_spec(y.1)
    };
    quick_two_sum_spec(r, s)
}

/// The difference of two pairs.
pub open spec fn sub2_spec<T: Limb>(x: (T, T), y: (T, T)) -> (T, T) {
    let r = x.0.sub_spec(y.0);
    let s = if greater(x.0.abs_spec(), y.0.abs_spec()) {
        x.0.sub_spec(r).sub_spec(y.0).sub_spec(y.1).add_spec(x.1)
    } else {
        y.0.neg_spec().sub_spec(r).add_spec(x.0).add_spec(x.1).sub_spec(y.1)
    };
    quick_two_sum_spec(r, s)
}

/// The product of two pairs.
pub open spec fn mul_spec<T: Limb>(x: (T, T), y: (T, T)) -> (T, T) {
    let t = mul12_spec(x.0, y.0);
    let c = x.0.mul_spec(y.1).add_spec(x.1.mul_spec(y.1)).add_spec(t.1);
    quick_two_sum_spec(t.0, c)
}

/// The quotient of two pairs.
pub open spec fn div_spec<T: Limb>(x: (T, T), y: (T, T)) -> (T, T) {
    let u = x.0.div_spec(y.0);
    let t = mul12_spec(u, y.0);
    let l = x.0.sub_spec(t.0).sub_spec(t.1).add_spec(x.1).sub_spec(u.mul_spec(y.1)).div_spec(
        y.0,
    );
    quick_two_sum_spec(u, l)
}

/// The square root of a pair whose high part is above zero; the zero pair
/// for every other pair.
pub open spec fn sqrt_spec<T: Limb>(x: (T, T)) -> (T, T) {
    if greater(x.0, zero()) {
        let c = x.0.sqrt_spec();
        let u = mul12_spec(c, c);
        let cc = x.0.sub_spec(u.0).sub_spec(u.1).add_spec(x.1).mul_spec(half()).div_spec(c);
        quick_two_sum_spec(c, cc)
    } else {
        (zero(), zero())
    }
}

/// Zero as a scalar.
fn zero_value<T: Limb>() -> (r: T)
    ensures
        converts::<T>() ==> r == zero::<T>(),
{
    T::from(0u32)
}

/// One half as a scalar.
fn half_value<T: Limb>() -> (r: T)
    requires
        total::<T>(),
    ensures
        converts::<T>() && T::obeys_div_spec() ==> r == half::<T>(),
{
    T::from(1u32) / T::from(2u32)
}

/// Adds `a` and `b` and recovers what rounding took from the sum.
///
/// Meant for `|a| >= |b|`. The order of the operands is not checked: out of
/// order the same operations are carried out, and the second component need
/// not be the rounding error.
pub fn quick_two_sum<T: Limb>(a: T, b: T) -> (r: (T, T))
    requires
        total::<T>(),
    ensures
        exact_sums::<T>() ==> r == quick_two_sum_spec(a, b),
{
    let s = a + b;
    let e = b - (s - a);
    (s, e)
}

/// Adds `a` and `b` and recovers what rounding took from the sum, whatever
/// the order of the operands.
pub fn two_sum<T: Limb>(a: T, b: T) -> (r: (T, T))
    requires
        total::<T>(),
    ensures
        exact_sums::<T>() ==> r == two_sum_spec(a, b),
{
    let s = a + b;
    let v = s - a;
    let e = (a - (s - v)) + (b - v);
    (s, e)
}

/// Splits `a` into a high and a low half whose products with the halves of
/// another scalar need no rounding.
pub fn split<T: Limb>(a: T) -> (r: (T, T))
    requires
        total::<T>(),
    ensures
        exact_products::<T>() ==> r == split_spec(a),
{
    let t = a * T::from(134_217_729u32);
    let hi = a - t + t;
    (hi, a - hi)
}

/// Multiplies `a` and `b` and recovers what rounding took from the product,
/// from the products of their halves.
pub fn two_prod<T: Limb>(a: T, b: T) -> (r: (T, T))
    requires
        total::<T>(),
    ensures
        exact_products::<T>() ==> r == two_prod_spec(a, b),
{
    let p = a * b;
    let a = split(a);
    let b = split(b);
    let e = ((a.0 * b.0 - p) + a.0 * b.1 + a.1 * b.0) + a.1 * b.1;
    (p, e)
}

/// Multiplies `a` and `b` and recovers what rounding took from the product
/// with one fused multiply-add.
pub fn two_prod_fma<T: Limb + MulAdd>(a: T, b: T) -> (r: (T, T))
    requires
        total::<T>(),
    ensures
        T::obeys_mul_spec() && T::obeys_neg_spec() && T::obeys_mul_add_spec() ==> r
            == two_prod_fma_spec(a, b),
{
    let p = a * b;
    let e = a.mul_add(b, p.neg());
    (p, e)
}

/// Multiplies two scalars into a pair.
///
/// Of the four products of the halves, the product of the two low halves
/// does not enter, and the product of the low half of `x` with the high
/// half of `y` enters twice.
pub fn mul12<T: Limb>(x: T, y: T) -> (r: (T, T))
    requires
        total::<T>(),
    ensures
        exact_products::<T>() ==> r == mul12_spec(x, y),
{
    let a = split(x);
    let b = split(y);
    let p = a.0 * b.0;
    let q = a.0 * b.1 + a.1 * b.0;
    let r = p + q;
    (r, p - r + q + a.1 * b.0)
}

/// Adds two pairs.
pub fn add2<T: Limb>(x: (T, T), y: (T, T)) -> (r: (T, T))
    requires
        total::<T>(),
    ensures
        exact_sums::<T>() && exact_order::<T>() ==> r == add2_spec(x, y),
{
    let r = x.0 + y.0;
    let s = if x.0.abs() > y.0.abs() {
        x.0 - r + y.0 + y.1 + x.1
    } else {
        y.0 - r + x.0 + x.1 + y.1
    };
    quick_two_sum(r, s)
}

/// Subtracts the pair `y` from the pair `x`.
pub fn sub2<T: Limb>(x: (T, T), y: (T, T)) -> (r: (T, T))
    requires
        total::<T>(),
    ensures
        exact_sums::<T>() && exact_order::<T>() && T::obeys_neg_spec() ==> r == sub2_spec(x, y),
{
    let r = x.0 - y.0;
    let s = if x.0.abs() > y.0.abs() {
        x.0 - r - y.0 - y.1 + x.1
    } else {
        y.0.neg() - r + x.0 + x.1 - y.1
    };
    quick_two_sum(r, s)
}

/// Multiplies two pairs.
///
/// The correction holds the product of the two low parts and the product of
/// the high part of `x` with the low part of `y`; the product of the low
/// part of `x` with the high part of `y` does not enter.
pub fn mul<T: Limb>(x: (T, T), y: (T, T)) -> (r: (T, T))
    requires
        total::<T>(),
    ensures
        exact_products::<T>() ==> r == mul_spec(x, y),
{
    let t = mul12(x.0, y.0);
    let c = x.0 * y.1 + x.1 * y.1 + t.1;
    quick_two_sum(t.0, c)
}

/// Divides the pair `x` by the pair `y`.
///
/// A divisor of zero is not singled out: the scalar's own division decides
/// what comes back.
pub fn div<T: Limb>(x: (T, T), y: (T, T)) -> (r: (T, T))
    requires
        total::<T>(),
    ensures
        exact_products::<T>() && T::obeys_div_spec() ==> r == div_spec(x, y),
{
    let u = x.0 / y.0;
    let t = mul12(u, y.0);
    let l = (x.0 - t.0 - t.1 + x.1 - u * y.1) / y.0;
    quick_two_sum(u, l)
}

/// The square root of a pair.
///
/// A pair whose high part is not above zero has the zero pair as its root:
/// no error is signalled for a negative argument.
pub fn sqrt<T: Limb>(x: (T, T)) -> (r: (T, T))
    requires
        total::<T>(),
    ensures
        exact_roots::<T>() ==> r == sqrt_spec(x),
        converts::<T>() && T::obeys_partial_cmp_spec() && !greater(x.0, zero()) ==> r == (
            zero::<T>(),
            zero::<T>(),
        ),
{
    let nought: T = zero_value();
    if x.0 > nought {
        let c = x.0.sqrt();
        let u = mul12(c, c);
        let cc = (x.0 - u.0 - u.1 + x.1) * half_value() / c;
        quick_two_sum(c, cc)
    } else {
        (nought, zero_value())
    }
}

/// The five terms that the first pass of [`renormalise`] leaves: the
/// running sum, then the rounding errors from the latest to the earliest.
///
/// The pass goes from the last limb upward: each limb is added to the sum
/// of those after it.
pub open spec fn renormalise_cascade<T: Limb>(a: (T, T, T, T, T)) -> Seq<T> {
    let x1 = quick_two_sum_spec(a.3, a.4);
    let x2 = quick_two_sum_spec(a.2, x1.0);
    let x3 = quick_two_sum_spec(a.1, x2.0);
    let x4 = quick_two_sum_spec(a.0, x3.0);
    seq![x4.0, x4.1, x3.1, x2.1, x1.1]
}

/// The second pass of [`renormalise`], from the term `t[i]` on, with the
/// carry `s` and with `k` slots of `b` filled.
///
/// A term is added to the carry. Where the rounding error of that sum
/// differs from zero, the sum fills the next slot and the error becomes the
/// carry; where it does not, the sum becomes the carry. After the last
/// term the carry fills the next slot, if one is free.
pub open spec fn renormalise_compact<T: Limb>(t: Seq<T>, i: int, s: T, b: Seq<T>, k: int) -> Seq<T>
    decreases 5 - i,
{
    if 1 <= i < 5 {
        let x = quick_two_sum_spec(s, t[i]);
        if differs(x.1, zero()) {
            renormalise_compact(t, i + 1, x.1, b.update(k, x.0), k + 1)
        } else {
            renormalise_compact(t, i + 1, x.0, b, k)
        }
    } else if 0 <= k < 4 {
        b.update(k, s)
    } else {
        b
    }
}

/// How the second pass of [`renormalise`] ends, from the term `t[i]` on
/// with the carry `s` and with `k` slots filled: the number of slots that
/// the sums have filled, and the carry after the last term. The carry
/// enters the result where that number is below four.
pub open spec fn renormalise_end<T: Limb>(t: Seq<T>, i: int, s: T, k: int) -> (int, T)
    decreases 5 - i,
{
    if 1 <= i < 5 {
        let x = quick_two_sum_spec(s, t[i]);
        if differs(x.1, zero()) {
            renormalise_end(t, i + 1, x.1, k + 1)
        } else {
            renormalise_end(t, i + 1, x.0, k)
        }
    } else {
        (k, s)
    }
}

/// The four limbs that [`renormalise`] returns for the five limbs `a`.
pub open spec fn renormalise_spec<T: Limb>(a: (T, T, T, T, T)) -> (T, T, T, T) {
    let t = renormalise_cascade(a);
    let b = renormalise_compact(t, 1, t[0], seq![zero::<T>(), zero(), zero(), zero()], 0);
    (b[0], b[1], b[2], b[3])
}

/// Folds five limbs into four.
///
/// A first pass sums the limbs from the last one upward and keeps each
/// rounding error. A second pass adds the errors to the running sum, from
/// the latest to the earliest: a sum whose own rounding error differs from
/// zero fills the next slot of the result and leaves that error as the
/// running sum. What is left of the running sum after the last term fills
/// the next slot. The slots that stay empty hold zero. Where all four
/// slots are filled by sums, the last running sum finds none and does not
/// enter the result.
pub fn renormalise<T: Limb>(a: (T, T, T, T, T)) -> (r: (T, T, T, T))
    requires
        total::<T>(),
    ensures
        exact_limbs::<T>() ==> r == renormalise_spec(a),
{
    let nought: T = zero_value();
    let mut t: [T; 5] = [nought; 5];

    let x = quick_two_sum(a.3, a.4);
    t[4] = x.1;
    let x = quick_two_sum(a.2, x.0);
    t[3] = x.1;
    let x = quick_two_sum(a.1, x.0);
    t[2] = x.1;
    let x = quick_two_sum(a.0, x.0);
    t[1] = x.1;
    t[0] = x.0;
    assert(exact_limbs::<T>() ==> t@ =~= renormalise_cascade(a));

    let mut s = t[0];
    let mut k: usize = 0;
    let mut b: [T; 4] = [nought; 4];
    assert(exact_limbs::<T>() ==> b@ =~= seq![zero::<T>(), zero(), zero(), zero()]);
    for i in 1usize..5
        invariant
            total::<T>(),
            k < i,
            exact_limbs::<T>() ==> nought == zero::<T>(),
            exact_limbs::<T>() ==> renormalise_compact(t@, i as int, s, b@, k as int)
                == renormalise_compact(
                renormalise_cascade(a),
                1,
                renormalise_cascade(a)[0],
                seq![zero::<T>(), zero(), zero(), zero()],
                0,
            ),
    {
        let x = quick_two_sum(s, t[i]);
        if x.1 != nought {
            b[k] = x.0;
            s = x.1;
            k += 1;
        } else {
            s = x.0;
        }
    }
    if k < 4 {
        b[k] = s;
    }
    (b[0], b[1], b[2], b[3])
}

/// A pair of scalars that stands for their sum.
///
/// The first scalar is the value as far as one scalar can hold it; the
/// second is what the first leaves out. The type keeps the two as they are
/// given: that the second is small beside the first is owed to the
/// operation that made the pair.
#[derive(Debug)]
pub struct DoubleDouble<T>(T, T);

impl<T> View for DoubleDouble<T> {
    type V = (T, T);

    closed spec fn view(&self) -> (T, T) {
        (self.0, self.1)
    }
}

impl<T> From<(T, T)> for DoubleDouble<T> {
    fn from(value: (T, T)) -> (r: Self)
        ensures
            r@ == value,
    {
        Self(value.0, value.1)
    }
}

impl<T> vstd::std_specs::convert::FromSpecImpl<(T, T)> for DoubleDouble<T> {
    open spec fn obeys_from_spec() -> bool {
        true
    }

    closed spec fn from_spec(value: (T, T)) -> Self {
        DoubleDouble(value.0, value.1)
    }
}

impl<T> From<DoubleDouble<T>> for (T, T) {
    fn from(value: DoubleDouble<T>) -> (r: Self)
        ensures
            r == value@,
    {
        (value.0, value.1)
    }
}

impl<T> vstd::std_specs::convert::FromSpecImpl<DoubleDouble<T>> for (T, T) {
    open spec fn obeys_from_spec() -> bool {
        true
    }

    open spec fn from_spec(value: DoubleDouble<T>) -> Self {
        value@
    }
}

/// The value with the pair `p` as its view.
pub open spec fn pair_value<T>(p: (T, T)) -> DoubleDouble<T> {
    <DoubleDouble<T> as FromSpec<(T, T)>>::from_spec(p)
}

impl<T: Limb> Add for DoubleDouble<T> {
    type Output = DoubleDouble<T>;

    fn add(self, rhs: Self) -> (r: Self)
        ensures
            exact_sums::<T>() && exact_order::<T>() ==> r@ == add2_spec(self@, rhs@),
    {
        let r = DoubleDouble::from(add2(self.into(), rhs.into()));
        r
    }
}

impl<T: Limb> vstd::std_specs::ops::AddSpecImpl for DoubleDouble<T> {
    open spec fn obeys_add_spec() -> bool {
        exact_sums::<T>() && exact_order::<T>()
    }

    open spec fn add_req(self, rhs: Self) -> bool {
        total::<T>()
    }

    open spec fn add_spec(self, rhs: Self) -> Self {
        pair_value(add2_spec(self@, rhs@))
    }
}

impl<T: Limb> Sub for DoubleDouble<T> {
    type Output = DoubleDouble<T>;

    fn sub(self, rhs: Self) -> (r: Self)
        ensures
            exact_sums::<T>() && exact_order::<T>() && T::obeys_neg_spec() ==> r@ == sub2_spec(
                self@,
                rhs@,
            ),
    {
        let r = DoubleDouble::from(sub2(self.into(), rhs.into()));
        r
    }
}

impl<T: Limb> vstd::std_specs::ops::SubSpecImpl for DoubleDouble<T> {
    open spec fn obeys_sub_spec() -> bool {
        exact_sums::<T>() && exact_order::<T>() && T::obeys_neg_spec()
    }

    open spec fn sub_req(self, rhs: Self) -> bool {
        total::<T>()
    }

    open spec fn sub_spec(self, rhs: Self) -> Self {
        pair_value(sub2_spec(self@, rhs@))
    }
}

/// A pair that is made into a [`DoubleDouble`] and taken out again is the
/// pair it was: neither scalar is rounded or replaced. So a scalar `a`
/// that enters as the pair `(a, zero)` comes back as `a`.
pub proof fn lemma_pair_round_trip<T>(p: (T, T))
    ensures
        pair_value(p)@ == p,
        <(T, T) as FromSpec<DoubleDouble<T>>>::from_spec(pair_value(p)) == p,
{
}

/// The square root of a pair whose high part is not above zero is the zero
/// pair, whatever the low part holds.
pub proof fn lemma_sqrt_of_nonpositive<T: Limb>(x: (T, T))
    requires
        !greater(x.0, zero()),
    ensures
        sqrt_spec(x) == (zero::<T>(), zero::<T>()),
{
}

/// Zero leaves `a` as it is in a sum and in a difference, and `a` cancels
/// itself. Among floating-point numbers this holds of every finite `a` but
/// the negative zero.
pub open spec fn cancels<T: Limb>(a: T) -> bool {
    let z = zero::<T>();
    &&& a.add_spec(z) == a
    &&& z.add_spec(a) == a
    &&& a.sub_spec(z) == a
    &&& a.sub_spec(a) == z
    &&& z.sub_spec(a).add_spec(a) == z
}

/// The high part of `x` alone is the rounded sum of both parts.
pub open spec fn normal<T: Limb>(x: (T, T)) -> bool {
    x.0.add_spec(x.1) == x.0
}

/// The zero pair is neutral in [`add2`]: a pair in normal form, of scalars
/// that zero leaves as they are, is its own sum with the zero pair.
pub proof fn lemma_add2_zero<T: Limb>(x: (T, T))
    requires
        cancels(x.0),
        cancels(x.1),
        cancels(zero::<T>()),
        normal(x),
    ensures
        add2_spec(x, (zero::<T>(), zero::<T>())) == x,
{
}

} // verus!
