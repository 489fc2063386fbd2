//! Arithmetic on vectors of one dimension.
//!
//! An operator between two vectors works element by element; an operator
//! between a vector and a scalar applies the scalar to each element. Each
//! operation asks that the element type accepts the operands it is given,
//! and states its result for an element type whose operator is a function
//! of its operands.
use vstd::prelude::*;
use vstd::std_specs::convert::FromSpec;
use vstd::std_specs::ops::{AddSpec, DivSpec, MulSpec, NegSpec, NotSpec, SubSpec};
use core::ops::{Add, AddAssign, Div, DivAssign, Mul, MulAssign, Neg, Not, Sub, SubAssign};
use crate::scalar::{
    add_total, div_total, is_default, is_unit, mul_total, sub_total, unit, unit_known,
};
use crate::traits::fns::SquareRoot;
use crate::vector::Vector;

verus! {

/// Applies `f` to the elements of `a` and `b` that stand at the same index.
fn zip_with<T: Copy, F: Fn(T, T) -> T, const DIMS: usize>(a: &[T; DIMS], b: &[T; DIMS], f: F) -> (r:
    [T; DIMS])
    requires
        forall|i: int| 0 <= i < DIMS ==> call_requires(f, (#[trigger] a@[i], b@[i])),
    ensures
        forall|i: int| 0 <= i < DIMS ==> call_ensures(f, (a@[i], b@[i]), #[trigger] r@[i]),
{
    let mut out: [T; DIMS] = *a;
    for i in 0..DIMS
        invariant
            forall|j: int| 0 <= j < DIMS ==> call_requires(f, (#[trigger] a@[j], b@[j])),
            forall|j: int| 0 <= j < i ==> call_ensures(f, (a@[j], b@[j]), #[trigger] out@[j]),
    {
        out[i] = f(a[i], b[i]);
    }
    out
}

/// Applies `f` to each element of `a`.
fn map_with<T: Copy, F: Fn(T) -> T, const DIMS: usize>(a: &[T; DIMS], f: F) -> (r: [T; DIMS])
    requires
        forall|i: int| 0 <= i < DIMS ==> call_requires(f, (#[trigger] a@[i],)),
    ensures
        forall|i: int| 0 <= i < DIMS ==> call_ensures(f, (a@[i],), #[trigger] r@[i]),
{
    let mut out: [T; DIMS] = *a;
    for i in 0..DIMS
        invariant
            forall|j: int| 0 <= j < DIMS ==> call_requires(f, (#[trigger] a@[j],)),
            forall|j: int| 0 <= j < i ==> call_ensures(f, (a@[j],), #[trigger] out@[j]),
    {
        out[i] = f(a[i]);
    }
    out
}

/// `<[T; N]>::map`, which calls the function it is given once for each
/// element of the array, and returns the array of what the calls returned,
/// each at the index of its element.
#[verifier::external_body]
fn array_map<T, F: Fn(T) -> T, const DIMS: usize>(a: [T; DIMS], f: F) -> (r: [T; DIMS])
    requires
        forall|i: int| 0 <= i < DIMS ==> call_requires(f, (#[trigger] a@[i],)),
    ensures
        forall|i: int| 0 <= i < DIMS ==> call_ensures(f, (a@[i],), #[trigger] r@[i]),
{
    a.map(f)
}

/// The sums of the elements of `a` and `b` that stand at the same index.
pub open spec fn zip_add<T: Add<Output = T>>(a: Seq<T>, b: Seq<T>) -> Seq<T> {
    Seq::new(a.len(), |i: int| a[i].add_spec(b[i]))
}

/// Each element of `a` may be added to the element of `b` at its index.
pub open spec fn zip_add_req<T: Add<Output = T>>(a: Seq<T>, b: Seq<T>) -> bool {
    forall|i: int| 0 <= i < a.len() ==> (#[trigger] a[i]).add_req(b[i])
}

/// The sums of each element of `a` and the scalar `t`.
pub open spec fn each_add<T: Add<Output = T>>(a: Seq<T>, t: T) -> Seq<T> {
    Seq::new(a.len(), |i: int| a[i].add_spec(t))
}

/// Each element of `a` may be added to the scalar `t`.
pub open spec fn each_add_req<T: Add<Output = T>>(a: Seq<T>, t: T) -> bool {
    forall|i: int| 0 <= i < a.len() ==> (#[trigger] a[i]).add_req(t)
}

impl<T, const DIMS: usize> Add for Vector<T, DIMS> where T: Add<Output = T> + Default + Copy {
    type Output = Self;

    /// The sum of two vectors, element by element.
    #[inline]
    fn add(self, rhs: Self) -> (r: Self)
        ensures
            T::obeys_add_spec() ==> r@ == zip_add(self@, rhs@),
    {
        let f = |x: T, y: T| -> (z: T)
            requires
                x.add_req(y),
            ensures
                T::obeys_add_spec() ==> z == x.add_spec(y),
            { x + y };
        let r = Vector { vals: zip_with(&self.vals, &rhs.vals, f) };
        proof {
            if T::obeys_add_spec() {
                assert(r@ =~= zip_add(self@, rhs@));
                Self::lemma_of_seq(zip_add(self@, rhs@));
                r.lemma_ext_equal(Self::of_seq(zip_add(self@, rhs@)));
            }
        }
        r
    }
}

impl<T, const DIMS: usize> vstd::std_specs::ops::AddSpecImpl for Vector<T, DIMS> where T: Add<Output = T> + Default + Copy {
    open spec fn obeys_add_spec() -> bool {
        T::obeys_add_spec()
    }

    open spec fn add_req(self, rhs: Self) -> bool {
        zip_add_req(self@, rhs@)
    }

    open spec fn add_spec(self, rhs: Self) -> Self {
        Self::of_seq(zip_add(self@, rhs@))
    }
}

impl<T, const DIMS: usize> AddAssign for Vector<T, DIMS> where T: Add<Output = T> + Default + Copy {
    /// Adds `rhs` to the vector, element by element.
    #[inline]
    fn add_assign(&mut self, rhs: Self)
        requires
            zip_add_req(old(self)@, rhs@),
        ensures
            T::obeys_add_spec() ==> final(self)@ == zip_add(old(self)@, rhs@),
    {
        *self = *self + rhs;
    }
}

impl<T, const DIMS: usize> Add<T> for Vector<T, DIMS> where T: Add<Output = T> + Default + Copy {
    type Output = Self;

    /// Adds the scalar `rhs` to each element.
    #[inline]
    fn add(self, rhs: T) -> (r: Self)
        ensures
            T::obeys_add_spec() ==> r@ == each_add(self@, rhs),
    {
        let f = |x: T| -> (z: T)
            requires
                x.add_req(rhs),
            ensures
                T::obeys_add_spec() ==> z == x.add_spec(rhs),
            { x + rhs };
        let r = Vector { vals: map_with(&self.vals, f) };
        proof {
            if T::obeys_add_spec() {
                assert(r@ =~= each_add(self@, rhs));
                Self::lemma_of_seq(each_add(self@, rhs));
                r.lemma_ext_equal(Self::of_seq(each_add(self@, rhs)));
            }
        }
        r
    }
}

impl<T, const DIMS: usize> vstd::std_specs::ops::AddSpecImpl<T> for Vector<T, DIMS> where T: Add<Output = T> + Default + Copy {
    open spec fn obeys_add_spec() -> bool {
        T::obeys_add_spec()
    }

    open spec fn add_req(self, rhs: T) -> bool {
        each_add_req(self@, rhs)
    }

    open spec fn add_spec(self, rhs: T) -> Self {
        Self::of_seq(each_add(self@, rhs))
    }
}

impl<T, const DIMS: usize> AddAssign<T> for Vector<T, DIMS> where T: Add<Output = T> + Default + Copy {
    /// Adds the scalar `rhs` to each element of the vector.
    #[inline]
    fn add_assign(&mut self, rhs: T)
        requires
            each_add_req(old(self)@, rhs),
        ensures
            T::obeys_add_spec() ==> final(self)@ == each_add(old(self)@, rhs),
    {
        *self = *self + rhs;
    }
}

/// The differences of the elements of `a` and `b` that stand at the same index.
pub open spec fn zip_sub<T: Sub<Output = T>>(a: Seq<T>, b: Seq<T>) -> Seq<T> {
    Seq::new(a.len(), |i: int| a[i].sub_spec(b[i]))
}

/// Each element of `a` may be reduced by the element of `b` at its index.
pub open spec fn zip_sub_req<T: Sub<Output = T>>(a: Seq<T>, b: Seq<T>) -> bool {
    forall|i: int| 0 <= i < a.len() ==> (#[trigger] a[i]).sub_req(b[i])
}

/// The differences of each element of `a` and the scalar `t`.
pub open spec fn each_sub<T: Sub<Output = T>>(a: Seq<T>, t: T) -> Seq<T> {
    Seq::new(a.len(), |i: int| a[i].sub_spec(t))
}

/// Each element of `a` may be reduced by the scalar `t`.
pub open spec fn each_sub_req<T: Sub<Output = T>>(a: Seq<T>, t: T) -> bool {
    forall|i: int| 0 <= i < a.len() ==> (#[trigger] a[i]).sub_req(t)
}

impl<T, const DIMS: usize> Sub for Vector<T, DIMS> where T: Sub<Output = T> + Default + Copy {
    type Output = Self;

    /// The difference of two vectors, element by element.
    #[inline]
    fn sub(self, rhs: Self) -> (r: Self)
        ensures
            T::obeys_sub_spec() ==> r@ == zip_sub(self@, rhs@),
    {
        let f = |x: T, y: T| -> (z: T)
            requires
                x.sub_req(y),
            ensures
                T::obeys_sub_spec() ==> z == x.sub_spec(y),
            { x - y };
        let r = Vector { vals: zip_with(&self.vals, &rhs.vals, f) };
        proof {
            if T::obeys_sub_spec() {
                assert(r@ =~= zip_sub(self@, rhs@));
                Self::lemma_of_seq(zip_sub(self@, rhs@));
                r.lemma_ext_equal(Self::of_seq(zip_sub(self@, rhs@)));
            }
        }
        r
    }
}

impl<T, const DIMS: usize> vstd::std_specs::ops::SubSpecImpl for Vector<T, DIMS> where T: Sub<Output = T> + Default + Copy {
    open spec fn obeys_sub_spec() -> bool {
        T::obeys_sub_spec()
    }

    open spec fn sub_req(self, rhs: Self) -> bool {
        zip_sub_req(self@, rhs@)
    }

    open spec fn sub_spec(self, rhs: Self) -> Self {
        Self::of_seq(zip_sub(self@, rhs@))
    }
}

impl<T, const DIMS: usize> SubAssign for Vector<T, DIMS> where T: Sub<Output = T> + Default + Copy {
    /// Subtracts `rhs` from the vector, element by element.
    #[inline]
    fn sub_assign(&mut self, rhs: Self)
        requires
            zip_sub_req(old(self)@, rhs@),
        ensures
            T::obeys_sub_spec() ==> final(self)@ == zip_sub(old(self)@, rhs@),
    {
        *self = *self - rhs;
    }
}

impl<T, const DIMS: usize> Sub<T> for Vector<T, DIMS> where T: Sub<Output = T> + Default + Copy {
    type Output = Self;

    /// Subtracts the scalar `rhs` from each element.
    #[inline]
    fn sub(self, rhs: T) -> (r: Self)
        ensures
            T::obeys_sub_spec() ==> r@ == each_sub(self@, rhs),
    {
        let f = |x: T| -> (z: T)
            requires
                x.sub_req(rhs),
            ensures
                T::obeys_sub_spec() ==> z == x.sub_spec(rhs),
            { x - rhs };
        let r = Vector { vals: map_with(&self.vals, f) };
        proof {
            if T::obeys_sub_spec() {
                assert(r@ =~= each_sub(self@, rhs));
                Self::lemma_of_seq(each_sub(self@, rhs));
                r.lemma_ext_equal(Self::of_seq(each_sub(self@, rhs)));
            }
        }
        r
    }
}

impl<T, const DIMS: usize> vstd::std_specs::ops::SubSpecImpl<T> for Vector<T, DIMS> where T: Sub<Output = T> + Default + Copy {
    open spec fn obeys_sub_spec() -> bool {
        T::obeys_sub_spec()
    }

    open spec fn sub_req(self, rhs: T) -> bool {
        each_sub_req(self@, rhs)
    }

    open spec fn sub_spec(self, rhs: T) -> Self {
        Self::of_seq(each_sub(self@, rhs))
    }
}

impl<T, const DIMS: usize> SubAssign<T> for Vector<T, DIMS> where T: Sub<Output = T> + Default + Copy {
    /// Subtracts the scalar `rhs` from each element of the vector.
    #[inline]
    fn sub_assign(&mut self, rhs: T)
        requires
            each_sub_req(old(self)@, rhs),
        ensures
            T::obeys_sub_spec() ==> final(self)@ == each_sub(old(self)@, rhs),
    {
        *self = *self - rhs;
    }
}

/// The products of the elements of `a` and `b` that stand at the same index.
pub open spec fn zip_mul<T: Mul<Output = T>>(a: Seq<T>, b: Seq<T>) -> Seq<T> {
    Seq::new(a.len(), |i: int| a[i].mul_spec(b[i]))
}

/// Each element of `a` may be multiplied by the element of `b` at its index.
pub open spec fn zip_mul_req<T: Mul<Output = T>>(a: Seq<T>, b: Seq<T>) -> bool {
    forall|i: int| 0 <= i < a.len() ==> (#[trigger] a[i]).mul_req(b[i])
}

/// The products of each element of `a` and the scalar `t`.
pub open spec fn each_mul<T: Mul<Output = T>>(a: Seq<T>, t: T) -> Seq<T> {
    Seq::new(a.len(), |i: int| a[i].mul_spec(t))
}

/// Each element of `a` may be multiplied by the scalar `t`.
pub open spec fn each_mul_req<T: Mul<Output = T>>(a: Seq<T>, t: T) -> bool {
    forall|i: int| 0 <= i < a.len() ==> (#[trigger] a[i]).mul_req(t)
}

impl<T, const DIMS: usize> Mul for Vector<T, DIMS> where T: Mul<Output = T> + Default + Copy {
    type Output = Self;

    /// The product of two vectors, element by element.
    #[inline]
    fn mul(self, rhs: Self) -> (r: Self)
        ensures
            T::obeys_mul_spec() ==> r@ == zip_mul(self@, rhs@),
    {
        let f = |x: T, y: T| -> (z: T)
            requires
                x.mul_req(y),
            ensures
                T::obeys_mul_spec() ==> z == x.mul_spec(y),
            { x * y };
        let r = Vector { vals: zip_with(&self.vals, &rhs.vals, f) };
        proof {
            if T::obeys_mul_spec() {
                assert(r@ =~= zip_mul(self@, rhs@));
                Self::lemma_of_seq(zip_mul(self@, rhs@));
                r.lemma_ext_equal(Self::of_seq(zip_mul(self@, rhs@)));
            }
        }
        r
    }
}

impl<T, const DIMS: usize> vstd::std_specs::ops::MulSpecImpl for Vector<T, DIMS> where T: Mul<Output = T> + Default + Copy {
    open spec fn obeys_mul_spec() -> bool {
        T::obeys_mul_spec()
    }

    open spec fn mul_req(self, rhs: Self) -> bool {
        zip_mul_req(self@, rhs@)
    }

    open spec fn mul_spec(self, rhs: Self) -> Self {
        Self::of_seq(zip_mul(self@, rhs@))
    }
}

impl<T, const DIMS: usize> MulAssign for Vector<T, DIMS> where T: Mul<Output = T> + Default + Copy {
    /// Multiplies the vector by `rhs`, element by element.
    #[inline]
    fn mul_assign(&mut self, rhs: Self)
        requires
            zip_mul_req(old(self)@, rhs@),
        ensures
            T::obeys_mul_spec() ==> final(self)@ == zip_mul(old(self)@, rhs@),
    {
        *self = *self * rhs;
    }
}

impl<T, const DIMS: usize> Mul<T> for Vector<T, DIMS> where T: Mul<Output = T> + Default + Copy {
    type Output = Self;

    /// Multiplies each element by the scalar `rhs`.
    #[inline]
    fn mul(self, rhs: T) -> (r: Self)
        ensures
            T::obeys_mul_spec() ==> r@ == each_mul(self@, rhs),
    {
        let f = |x: T| -> (z: T)
            requires
                x.mul_req(rhs),
            ensures
                T::obeys_mul_spec() ==> z == x.mul_spec(rhs),
            { x * rhs };
        let r = Vector { vals: map_with(&self.vals, f) };
        proof {
            if T::obeys_mul_spec() {
                assert(r@ =~= each_mul(self@, rhs));
                Self::lemma_of_seq(each_mul(self@, rhs));
                r.lemma_ext_equal(Self::of_seq(each_mul(self@, rhs)));
            }
        }
        r
    }
}

impl<T, const DIMS: usize> vstd::std_specs::ops::MulSpecImpl<T> for Vector<T, DIMS> where T: Mul<Output = T> + Default + Copy {
    open spec fn obeys_mul_spec() -> bool {
        T::obeys_mul_spec()
    }

    open spec fn mul_req(self, rhs: T) -> bool {
        each_mul_req(self@, rhs)
    }

    open spec fn mul_spec(self, rhs: T) -> Self {
        Self::of_seq(each_mul(self@, rhs))
    }
}

impl<T, const DIMS: usize> MulAssign<T> for Vector<T, DIMS> where T: Mul<Output = T> + Default + Copy {
    /// Multiplies each element of the vector by the scalar `rhs`.
    #[inline]
    fn mul_assign(&mut self, rhs: T)
        requires
            each_mul_req(old(self)@, rhs),
        ensures
            T::obeys_mul_spec() ==> final(self)@ == each_mul(old(self)@, rhs),
    {
        *self = *self * rhs;
    }
}

/// The quotients of the elements of `a` and `b` that stand at the same index.
pub open spec fn zip_div<T: Div<Output = T>>(a: Seq<T>, b: Seq<T>) -> Seq<T> {
    Seq::new(a.len(), |i: int| a[i].div_spec(b[i]))
}

/// Each element of `a` may be divided by the element of `b` at its index.
pub open spec fn zip_div_req<T: Div<Output = T>>(a: Seq<T>, b: Seq<T>) -> bool {
    forall|i: int| 0 <= i < a.len() ==> (#[trigger] a[i]).div_req(b[i])
}

/// The quotients of each element of `a` and the scalar `t`.
pub open spec fn each_div<T: Div<Output = T>>(a: Seq<T>, t: T) -> Seq<T> {
    Seq::new(a.len(), |i: int| a[i].div_spec(t))
}

/// Each element of `a` may be divided by the scalar `t`.
pub open spec fn each_div_req<T: Div<Output = T>>(a: Seq<T>, t: T) -> bool {
    forall|i: int| 0 <= i < a.len() ==> (#[trigger] a[i]).div_req(t)
}

impl<T, const DIMS: usize> Div for Vector<T, DIMS> where T: Div<Output = T> + Default + Copy {
    type Output = Self;

    /// The quotient of two vectors, element by element.
    #[inline]
    fn div(self, rhs: Self) -> (r: Self)
        ensures
            T::obeys_div_spec() ==> r@ == zip_div(self@, rhs@),
    {
        let f = |x: T, y: T| -> (z: T)
            requires
                x.div_req(y),
            ensures
                T::obeys_div_spec() ==> z == x.div_spec(y),
            { x / y };
        let r = Vector { vals: zip_with(&self.vals, &rhs.vals, f) };
        proof {
            if T::obeys_div_spec() {
                assert(r@ =~= zip_div(self@, rhs@));
                Self::lemma_of_seq(zip_div(self@, rhs@));
                r.lemma_ext_equal(Self::of_seq(zip_div(self@, rhs@)));
            }
        }
        r
    }
}

impl<T, const DIMS: usize> vstd::std_specs::ops::DivSpecImpl for Vector<T, DIMS> where T: Div<Output = T> + Default + Copy {
    open spec fn obeys_div_spec() -> bool {
        T::obeys_div_spec()
    }

    open spec fn div_req(self, rhs: Self) -> bool {
        zip_div_req(self@, rhs@)
    }

    open spec fn div_spec(self, rhs: Self) -> Self {
        Self::of_seq(zip_div(self@, rhs@))
    }
}

impl<T, const DIMS: usize> DivAssign for Vector<T, DIMS> where T: Div<Output = T> + Default + Copy {
    /// Divides the vector by `rhs`, element by element.
    #[inline]
    fn div_assign(&mut self, rhs: Self)
        requires
            zip_div_req(old(self)@, rhs@),
        ensures
            T::obeys_div_spec() ==> final(self)@ == zip_div(old(self)@, rhs@),
    {
        *self = *self / rhs;
    }
}

impl<T, const DIMS: usize> Div<T> for Vector<T, DIMS> where T: Div<Output = T> + Default + Copy {
    type Output = Self;

    /// Divides each element by the scalar `rhs`.
    #[inline]
    fn div(self, rhs: T) -> (r: Self)
        ensures
            T::obeys_div_spec() ==> r@ == each_div(self@, rhs),
    {
        let f = |x: T| -> (z: T)
            requires
                x.div_req(rhs),
            ensures
                T::obeys_div_spec() ==> z == x.div_spec(rhs),
            { x / rhs };
        let r = Vector { vals: map_with(&self.vals, f) };
        proof {
            if T::obeys_div_spec() {
                assert(r@ =~= each_div(self@, rhs));
                Self::lemma_of_seq(each_div(self@, rhs));
                r.lemma_ext_equal(Self::of_seq(each_div(self@, rhs)));
            }
        }
        r
    }
}

impl<T, const DIMS: usize> vstd::std_specs::ops::DivSpecImpl<T> for Vector<T, DIMS> where T: Div<Output = T> + Default + Copy {
    open spec fn obeys_div_spec() -> bool {
        T::obeys_div_spec()
    }

    open spec fn div_req(self, rhs: T) -> bool {
        each_div_req(self@, rhs)
    }

    open spec fn div_spec(self, rhs: T) -> Self {
        Self::of_seq(each_div(self@, rhs))
    }
}

impl<T, const DIMS: usize> DivAssign<T> for Vector<T, DIMS> where T: Div<Output = T> + Default + Copy {
    /// Divides each element of the vector by the scalar `rhs`.
    #[inline]
    fn div_assign(&mut self, rhs: T)
        requires
            each_div_req(old(self)@, rhs),
        ensures
            T::obeys_div_spec() ==> final(self)@ == each_div(old(self)@, rhs),
    {
        *self = *self / rhs;
    }
}

/// The negatives of the elements of `a`.
pub open spec fn each_neg<T: Neg<Output = T>>(a: Seq<T>) -> Seq<T> {
    Seq::new(a.len(), |i: int| a[i].neg_spec())
}

/// Each element of `a` has a negative.
pub open spec fn each_neg_req<T: Neg<Output = T>>(a: Seq<T>) -> bool {
    forall|i: int| 0 <= i < a.len() ==> (#[trigger] a[i]).neg_req()
}

impl<T, const DIMS: usize> Neg for Vector<T, DIMS> where T: Neg<Output = T> + Default + Copy {
    type Output = Self;

    /// The negative of each element.
    #[inline]
    fn neg(self) -> (r: Self)
        ensures
            T::obeys_neg_spec() ==> r@ == each_neg(self@),
    {
        let f = |x: T| -> (z: T)
            requires
                x.neg_req(),
            ensures
                T::obeys_neg_spec() ==> z == x.neg_spec(),
            { x.neg() };
        let r = Vector { vals: map_with(&self.vals, f) };
        proof {
            if T::obeys_neg_spec() {
                assert(r@ =~= each_neg(self@));
                Self::lemma_of_seq(each_neg(self@));
                r.lemma_ext_equal(Self::of_seq(each_neg(self@)));
            }
        }
        r
    }
}

impl<T, const DIMS: usize> vstd::std_specs::ops::NegSpecImpl for Vector<T, DIMS> where T: Neg<Output = T> + Default + Copy {
    open spec fn obeys_neg_spec() -> bool {
        T::obeys_neg_spec()
    }

    open spec fn neg_req(self) -> bool {
        each_neg_req(self@)
    }

    open spec fn neg_spec(self) -> Self {
        Self::of_seq(each_neg(self@))
    }
}

/// The complements of the elements of `a`.
pub open spec fn each_not<T: Not<Output = T>>(a: Seq<T>) -> Seq<T> {
    Seq::new(a.len(), |i: int| a[i].not_spec())
}

/// Each element of `a` has a complement.
pub open spec fn each_not_req<T: Not<Output = T>>(a: Seq<T>) -> bool {
    forall|i: int| 0 <= i < a.len() ==> (#[trigger] a[i]).not_req()
}

impl<T, const DIMS: usize> Not for Vector<T, DIMS> where T: Not<Output = T> + Default + Copy {
    type Output = Self;

    /// The complement of each element.
    #[inline]
    fn not(self) -> (r: Self)
        ensures
            T::obeys_not_spec() ==> r@ == each_not(self@),
    {
        let f = |x: T| -> (z: T)
            requires
                x.not_req(),
            ensures
                T::obeys_not_spec() ==> z == x.not_spec(),
            { x.not() };
        let r = Vector { vals: map_with(&self.vals, f) };
        proof {
            if T::obeys_not_spec() {
                assert(r@ =~= each_not(self@));
                Self::lemma_of_seq(each_not(self@));
                r.lemma_ext_equal(Self::of_seq(each_not(self@)));
            }
        }
        r
    }
}

impl<T, const DIMS: usize> vstd::std_specs::ops::NotSpecImpl for Vector<T, DIMS> where T: Not<Output = T> + Default + Copy {
    open spec fn obeys_not_spec() -> bool {
        T::obeys_not_spec()
    }

    open spec fn not_req(self) -> bool {
        each_not_req(self@)
    }

    open spec fn not_spec(self) -> Self {
        Self::of_seq(each_not(self@))
    }
}

/// The dot product of the first `n` elements of `a` and `b`, summed from the
/// value `z` on, from the first index upward.
pub open spec fn dot_from<T: Add<Output = T> + Mul<Output = T>>(
    z: T,
    a: Seq<T>,
    b: Seq<T>,
    n: int,
) -> T
    decreases n,
{
    if n <= 0 {
        z
    } else {
        dot_from(z, a, b, n - 1).add_spec(a[n - 1].mul_spec(b[n - 1]))
    }
}

/// The product at index `k` may be formed and added to the sum of those
/// before it.
pub open spec fn dot_step_req<T: Add<Output = T> + Mul<Output = T>>(
    z: T,
    a: Seq<T>,
    b: Seq<T>,
    k: int,
) -> bool {
    a[k].mul_req(b[k]) && dot_from(z, a, b, k).add_req(a[k].mul_spec(b[k]))
}

/// The dot product of `a` and `b` may be summed from `z` on: each step
/// accepts its operands, or `+` and `*` accept every operand.
pub open spec fn dot_req<T: Add<Output = T> + Mul<Output = T>>(z: T, a: Seq<T>, b: Seq<T>) -> bool {
    if T::obeys_add_spec() && T::obeys_mul_spec() {
        forall|k: int| 0 <= k < a.len() ==> #[trigger] dot_step_req(z, a, b, k)
    } else {
        add_total::<T>() && mul_total::<T>()
    }
}

/// The square of the length of `a`: its dot product with itself, summed
/// from `z` on.
pub open spec fn square_from<T: Add<Output = T> + Mul<Output = T>>(z: T, a: Seq<T>) -> T {
    dot_from(z, a, a, a.len() as int)
}

impl<T, const DIMS: usize> Vector<T, DIMS> where
    T: Add<Output = T> + Mul<Output = T> + Default + Copy,
 {
    /// The dot product of two vectors, also known as the scalar product: the
    /// sum, from a default value of `T` on, of the products of the elements
    /// that stand at the same index.
    #[inline]
    pub fn dot(&self, rhs: Self) -> (r: T)
        requires
            forall|z: T| is_default(z) ==> dot_req(z, self@, rhs@),
        ensures
            T::obeys_add_spec() && T::obeys_mul_spec() ==> exists|z: T|
                #[trigger] is_default(z) && r == dot_from(z, self@, rhs@, DIMS as int),
    {
        let z = T::default();
        assert(is_default(z));
        let mut acc = z;
        for i in 0..DIMS
            invariant
                dot_req(z, self@, rhs@),
                T::obeys_add_spec() && T::obeys_mul_spec() ==> acc == dot_from(
                    z,
                    self@,
                    rhs@,
                    i as int,
                ),
        {
            proof {
                self.lemma_len();
                if T::obeys_add_spec() && T::obeys_mul_spec() {
                    assert(dot_step_req(z, self@, rhs@, i as int));
                }
            }
            acc = acc + (self.vals[i] * rhs.vals[i]);
        }
        acc
    }

    /// The square of the length: the dot product of the vector with itself.
    #[inline]
    pub fn length_squared(&self) -> (r: T)
        requires
            forall|z: T| is_default(z) ==> dot_req(z, self@, self@),
        ensures
            T::obeys_add_spec() && T::obeys_mul_spec() ==> exists|z: T|
                #[trigger] is_default(z) && r == square_from(z, self@),
    {
        proof {
            self.lemma_len();
        }
        self.dot(*self)
    }
}

impl<T, const DIMS: usize> Vector<T, DIMS> where
    T: Add<Output = T> + Mul<Output = T> + Copy + Default + SquareRoot,
 {
    /// The length: the square root of the dot product of the vector with
    /// itself.
    #[inline]
    pub fn length(&self) -> (r: T)
        requires
            forall|z: T| is_default(z) ==> dot_req(z, self@, self@),
        ensures
            T::obeys_add_spec() && T::obeys_mul_spec() && T::obeys_sqrt_spec() ==> exists|z: T|
                #[trigger] is_default(z) && r == square_from(z, self@).sqrt_spec(),
    {
        self.length_squared().sqrt()
    }
}

/// One divided by each element of `a`.
pub open spec fn each_recip<T: Div<Output = T> + From<u8>>(a: Seq<T>) -> Seq<T> {
    Seq::new(a.len(), |i: int| unit::<T>().div_spec(a[i]))
}

/// One may be divided by each element of `a`: where the scalar one is
/// known, it may be divided by each element; where it is not, every scalar
/// may be.
pub open spec fn each_recip_req<T: Div<Output = T> + From<u8>>(a: Seq<T>) -> bool {
    if unit_known::<T>() {
        forall|i: int| 0 <= i < a.len() ==> unit::<T>().div_req(#[trigger] a[i])
    } else {
        forall|o: T, i: int| 0 <= i < a.len() ==> #[trigger] o.div_req(a[i])
    }
}

impl<T, const DIMS: usize> Vector<T, DIMS> where T: Div<Output = T> + From<u8> {
    /// The reciprocal of each element: one, as `T` converts it from the
    /// whole number, divided by the element.
    #[inline]
    pub fn reciprocal(self) -> (r: Self)
        requires
            each_recip_req(self@),
        ensures
            unit_known::<T>() && T::obeys_div_spec() ==> r@ == each_recip(self@),
    {
        let f = |x: T| -> (z: T)
            requires
                forall|o: T| is_unit(o) ==> #[trigger] o.div_req(x),
            ensures
                unit_known::<T>() && T::obeys_div_spec() ==> z == unit::<T>().div_spec(x),
            {
                let one = T::from(1u8);
                assert(is_unit(one));
                one / x
            };
        let r = Vector { vals: array_map(self.vals, f) };
        proof {
            if unit_known::<T>() && T::obeys_div_spec() {
                assert(r@ =~= each_recip(self@));
            }
        }
        r
    }
}

/// The factor by which [`Vector::normalise`] multiplies the elements of `a`,
/// with `o` as the scalar one: `o` divided by the length, the dot product
/// being summed from `z` on.
pub open spec fn normalise_factor_with<
    T: Add<Output = T> + Mul<Output = T> + SquareRoot + Div<Output = T> + From<u8>,
>(o: T, z: T, a: Seq<T>) -> T {
    o.div_spec(square_from(z, a).sqrt_spec())
}

/// The factor by which [`Vector::normalise`] multiplies the elements of `a`:
/// one divided by the length, the dot product being summed from `z` on.
pub open spec fn normalise_factor<
    T: Add<Output = T> + Mul<Output = T> + SquareRoot + Div<Output = T> + From<u8>,
>(z: T, a: Seq<T>) -> T {
    normalise_factor_with(unit::<T>(), z, a)
}

/// The operators and the square root of `T` return what their
/// specifications say.
pub open spec fn normalise_steps_known<
    T: Add<Output = T> + Mul<Output = T> + SquareRoot + Div<Output = T> + From<u8>,
>() -> bool {
    &&& T::obeys_add_spec()
    &&& T::obeys_mul_spec()
    &&& T::obeys_div_spec()
    &&& T::obeys_sqrt_spec()
}

/// Every operation of [`Vector::normalise`] returns what its specification
/// says.
pub open spec fn normalise_known<
    T: Add<Output = T> + Mul<Output = T> + SquareRoot + Div<Output = T> + From<u8>,
>() -> bool {
    normalise_steps_known::<T>() && unit_known::<T>()
}

/// The vector `a` may be normalised with `o` as the scalar one, its dot
/// product being summed from `z` on: each step accepts its operands.
pub open spec fn normalise_req<
    T: Add<Output = T> + Mul<Output = T> + SquareRoot + Div<Output = T> + From<u8>,
>(o: T, z: T, a: Seq<T>) -> bool {
    &&& dot_req(z, a, a)
    &&& o.div_req(square_from(z, a).sqrt_spec())
    &&& each_mul_req(a, normalise_factor_with(o, z, a))
}

impl<T, const DIMS: usize> Vector<T, DIMS> where
    T: Add<Output = T> + Mul<Output = T> + Copy + Default + SquareRoot + Div<Output = T> + From<u8>,
 {
    /// The vector scaled to the length one: each element multiplied by one
    /// over the length.
    ///
    /// Where the operators and the square root of `T` return what their
    /// specifications say, each step has to accept its operands, for the
    /// scalar one where that is known and for every scalar in its place
    /// where it is not; where they do not, `+`, `*` and `/` have to accept
    /// every operand.
    pub fn normalise(self) -> (r: Self)
        requires
            normalise_steps_known::<T>() ==> forall|z: T, o: T|
                #![trigger is_default(z), is_unit(o)]
                is_default(z) && is_unit(o) ==> normalise_req(o, z, self@),
            !normalise_steps_known::<T>() ==> add_total::<T>() && mul_total::<T>() && div_total::<
                T,
            >(),
        ensures
            normalise_known::<T>() ==> exists|z: T|
                #[trigger] is_default(z) && r@ == each_mul(self@, normalise_factor(z, self@)),
    {
        proof {
            self.lemma_len();
            assert forall|z: T| is_default(z) implies dot_req(z, self@, self@) by {
                if normalise_steps_known::<T>() {
                    assert(is_unit(unit::<T>()));
                    assert(normalise_req(unit::<T>(), z, self@));
                }
            }
        }
        let len = self.length();
        let one = T::from(1u8);
        proof {
            if normalise_steps_known::<T>() {
                let z = choose|z: T|
                    #[trigger] is_default(z) && len == square_from(z, self@).sqrt_spec();
                assert(is_unit(one));
                assert(normalise_req(one, z, self@));
            }
        }
        self * (one / len)
    }
}

/// The cross product of `a` and `b`, which have three elements each.
pub open spec fn cross_spec<T: Sub<Output = T> + Mul<Output = T>>(a: Seq<T>, b: Seq<T>) -> Seq<T> {
    seq![
        a[1].mul_spec(b[2]).sub_spec(a[2].mul_spec(b[1])),
        a[2].mul_spec(b[0]).sub_spec(a[0].mul_spec(b[2])),
        a[0].mul_spec(b[1]).sub_spec(a[1].mul_spec(b[0])),
    ]
}

/// The cross product of `a` and `b` may be formed: each product and each
/// difference accepts its operands, or `-` and `*` accept every operand.
pub open spec fn cross_req<T: Sub<Output = T> + Mul<Output = T>>(a: Seq<T>, b: Seq<T>) -> bool {
    if T::obeys_sub_spec() && T::obeys_mul_spec() {
        &&& a[1].mul_req(b[2])
        &&& a[2].mul_req(b[1])
        &&& a[2].mul_req(b[0])
        &&& a[0].mul_req(b[2])
        &&& a[0].mul_req(b[1])
        &&& a[1].mul_req(b[0])
        &&& a[1].mul_spec(b[2]).sub_req(a[2].mul_spec(b[1]))
        &&& a[2].mul_spec(b[0]).sub_req(a[0].mul_spec(b[2]))
        &&& a[0].mul_spec(b[1]).sub_req(a[1].mul_spec(b[0]))
    } else {
        sub_total::<T>() && mul_total::<T>()
    }
}

impl<T> Vector<T, 3> where T: Sub<Output = T> + Mul<Output = T> + Default + Copy {
    /// The cross product of two vectors of three elements.
    #[inline]
    pub fn cross(&self, rhs: Self) -> (r: Self)
        requires
            cross_req(self@, rhs@),
        ensures
            T::obeys_sub_spec() && T::obeys_mul_spec() ==> r@ == cross_spec(self@, rhs@),
    {
        let a = &self.vals;
        let b = &rhs.vals;
        let r = Vector {
            vals: [
                (a[1] * b[2]) - (a[2] * b[1]),
                (a[2] * b[0]) - (a[0] * b[2]),
                (a[0] * b[1]) - (a[1] * b[0]),
            ],
        };
        proof {
            if T::obeys_sub_spec() && T::obeys_mul_spec() {
                assert(r@ =~= cross_spec(self@, rhs@));
            }
        }
        r
    }
}

} // verus!
