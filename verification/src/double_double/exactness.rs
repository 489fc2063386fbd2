//! The sums, the splitting and the product lose nothing.
//!
//! The functions of this library fix operations; what the operations
//! return is up to the scalar. For a scalar that is a finite double the
//! results can be said exactly. Such a scalar is read by a function
//! `value`, which gives the number it stands for as a whole multiple of the
//! least positive double, and each of its operations rounds to nearest: of
//! the finite doubles none is nearer to the exact result than the one
//! returned. Under these readings the second component of
//! [`quick_two_sum`](super::quick_two_sum) and of
//! [`two_sum`](super::two_sum) is exactly what rounding took from the sum,
//! the two halves of [`split`](super::split) are short and add up exactly,
//! the second component of [`two_prod`](super::two_prod) is exactly what
//! rounding took from the product, [`mul12`](super::mul12) returns the
//! exact product of two short operands, and the four limbs of
//! [`renormalise`](super::renormalise) keep the total of the five.
//!
//! An operation that overflows returns no finite double and so does not
//! round to nearest in this sense: the statements below speak of
//! operations that stay in range.
use vstd::prelude::*;
use vstd::arithmetic::power2::pow2;
use vstd::std_specs::ops::{AddSpec, MulSpec, NegSpec, SubSpec};
use crate::double_double::product::{
    greatest, lemma_product_scaled, lemma_two_prod, lemma_two_prod_fma, nearest_product,
    product_keeps_bits, unit_scale,
};
use crate::double_double::rounding::{
    lemma_nearest_of_grid, lemma_on_grid_negated, lemma_quick_two_sum, lemma_two_sum,
    lemma_zero_on_grid, magnitude, nearest, on_grid, split_multiplier,
};
use crate::double_double::splitting::{fits, lemma_split_halves, lemma_split_short};
use crate::double_double::{
    add2_spec, differs, greater, mul12_spec, quick_two_sum_spec, renormalise_cascade,
    renormalise_compact, renormalise_end, renormalise_spec, split_factor, split_spec,
    two_prod_fma_spec, two_prod_spec, two_sum_spec, zero, Limb,
};
use crate::traits::fns::abs::Abs;
use crate::traits::fns::MulAdd;

verus! {

/// The sum of `x` and `y`, as `T` forms it, is their exact sum rounded to
/// nearest.
pub open spec fn sum_rounds<T: Limb>(value: spec_fn(T) -> int, x: T, y: T) -> bool {
    nearest(value(x) + value(y), value(x.add_spec(y)))
}

/// The difference of `x` and `y`, as `T` forms it, is their exact
/// difference rounded to nearest.
pub open spec fn difference_rounds<T: Limb>(value: spec_fn(T) -> int, x: T, y: T) -> bool {
    nearest(value(x) - value(y), value(x.sub_spec(y)))
}

/// The product of `a` and the factor of the splitting, as `T` forms it, is
/// the exact product rounded to nearest, and the exact product is in range.
pub open spec fn split_product_rounds<T: Limb>(value: spec_fn(T) -> int, a: T) -> bool {
    &&& magnitude(split_multiplier() * value(a)) < pow2(2098)
    &&& nearest(split_multiplier() * value(a), value(a.mul_spec(split_factor())))
}

/// Each operation of [`quick_two_sum`](super::quick_two_sum) on `a` and `b`
/// rounds to nearest.
pub open spec fn quick_two_sum_rounds<T: Limb>(value: spec_fn(T) -> int, a: T, b: T) -> bool {
    let s = a.add_spec(b);
    &&& sum_rounds(value, a, b)
    &&& difference_rounds(value, s, a)
    &&& difference_rounds(value, b, s.sub_spec(a))
}

/// Each operation of [`two_sum`](super::two_sum) on `a` and `b` rounds to
/// nearest.
pub open spec fn two_sum_rounds<T: Limb>(value: spec_fn(T) -> int, a: T, b: T) -> bool {
    let s = a.add_spec(b);
    let v = s.sub_spec(a);
    &&& sum_rounds(value, a, b)
    &&& difference_rounds(value, s, a)
    &&& difference_rounds(value, s, v)
    &&& difference_rounds(value, a, s.sub_spec(v))
    &&& difference_rounds(value, b, v)
    &&& sum_rounds(value, a.sub_spec(s.sub_spec(v)), b.sub_spec(v))
}

/// Each operation of [`split`](super::split) on `a` rounds to nearest, and
/// the product in it is in range.
pub open spec fn split_rounds<T: Limb>(value: spec_fn(T) -> int, a: T) -> bool {
    let t = a.mul_spec(split_factor());
    let hi = a.sub_spec(t).add_spec(t);
    &&& split_product_rounds(value, a)
    &&& difference_rounds(value, a, t)
    &&& sum_rounds(value, a.sub_spec(t), t)
    &&& difference_rounds(value, a, hi)
}

/// For finite doubles `a` and `b` with `a` no less than `b` in magnitude,
/// the two components of [`quick_two_sum`](super::quick_two_sum) add up to
/// the exact sum of `a` and `b`.
pub proof fn lemma_quick_two_sum_exact<T: Limb>(value: spec_fn(T) -> int, a: T, b: T)
    requires
        on_grid(value(a)),
        on_grid(value(b)),
        magnitude(value(a)) >= magnitude(value(b)),
        quick_two_sum_rounds(value, a, b),
    ensures
        value(quick_two_sum_spec(a, b).0) + value(quick_two_sum_spec(a, b).1) == value(a) + value(
            b,
        ),
{
    let s = a.add_spec(b);
    let z = s.sub_spec(a);
    let e = b.sub_spec(z);
    lemma_quick_two_sum(value(a), value(b), value(s), value(z), value(e));
}

/// For finite doubles `a` and `b` in any order, the two components of
/// [`two_sum`](super::two_sum) add up to the exact sum of `a` and `b`.
pub proof fn lemma_two_sum_exact<T: Limb>(value: spec_fn(T) -> int, a: T, b: T)
    requires
        on_grid(value(a)),
        on_grid(value(b)),
        two_sum_rounds(value, a, b),
    ensures
        value(two_sum_spec(a, b).0) + value(two_sum_spec(a, b).1) == value(a) + value(b),
{
    let s = a.add_spec(b);
    let v = s.sub_spec(a);
    let w = s.sub_spec(v);
    let x = a.sub_spec(w);
    let y = b.sub_spec(v);
    let e = x.add_spec(y);
    lemma_two_sum(
        value(a),
        value(b),
        value(s),
        value(v),
        value(w),
        value(x),
        value(y),
        value(e),
    );
}

/// For finite doubles `a` and `b` whose sum the scalar forms alike in
/// either order, [`two_sum`](super::two_sum) returns the same two values
/// whichever operand comes first.
pub proof fn lemma_two_sum_commutes<T: Limb>(value: spec_fn(T) -> int, a: T, b: T)
    requires
        on_grid(value(a)),
        on_grid(value(b)),
        two_sum_rounds(value, a, b),
        two_sum_rounds(value, b, a),
        value(a.add_spec(b)) == value(b.add_spec(a)),
    ensures
        value(two_sum_spec(a, b).0) == value(two_sum_spec(b, a).0),
        value(two_sum_spec(a, b).1) == value(two_sum_spec(b, a).1),
{
    lemma_two_sum_exact(value, a, b);
    lemma_two_sum_exact(value, b, a);
}

/// The product of `x` and `y`, as `T` forms it, is their exact product
/// rounded to nearest.
pub open spec fn product_rounds<T: Limb>(value: spec_fn(T) -> int, x: T, y: T) -> bool {
    nearest_product(value(x) * value(y), value(x.mul_spec(y)))
}

/// Each operation of [`two_prod`](super::two_prod) on `a` and `b` rounds to
/// nearest, and the product of `a` and `b` and that of their high halves
/// are in range.
pub open spec fn two_prod_rounds<T: Limb>(value: spec_fn(T) -> int, a: T, b: T) -> bool {
    let p = a.mul_spec(b);
    let x = split_spec(a);
    let y = split_spec(b);
    let hh = x.0.mul_spec(y.0);
    let hl = x.0.mul_spec(y.1);
    let lh = x.1.mul_spec(y.0);
    let ll = x.1.mul_spec(y.1);
    let s1 = hh.sub_spec(p);
    let s2 = s1.add_spec(hl);
    let s3 = s2.add_spec(lh);
    &&& split_rounds(value, a)
    &&& split_rounds(value, b)
    &&& magnitude(value(a) * value(b)) <= greatest() * unit_scale()
    &&& magnitude(value(x.0) * value(y.0)) < pow2(2098) * unit_scale()
    &&& product_rounds(value, a, b)
    &&& product_rounds(value, x.0, y.0)
    &&& product_rounds(value, x.0, y.1)
    &&& product_rounds(value, x.1, y.0)
    &&& product_rounds(value, x.1, y.1)
    &&& difference_rounds(value, hh, p)
    &&& sum_rounds(value, s1, hl)
    &&& sum_rounds(value, s2, lh)
    &&& sum_rounds(value, s3, ll)
}

/// For a finite double `a`, the two halves of [`split`](super::split) add
/// up to `a` exactly, and each has a mantissa of 26 bits at most. Where
/// the scalar's own sum of the halves rounds to nearest, that sum is `a`.
pub proof fn lemma_split_exact<T: Limb>(value: spec_fn(T) -> int, a: T)
    requires
        on_grid(value(a)),
        split_rounds(value, a),
    ensures
        value(split_spec(a).0) + value(split_spec(a).1) == value(a),
        fits(value(split_spec(a).0), 26),
        fits(value(split_spec(a).1), 26),
        sum_rounds(value, split_spec(a).0, split_spec(a).1) ==> value(
            split_spec(a).0.add_spec(split_spec(a).1),
        ) == value(a),
{
    let t = a.mul_spec(split_factor());
    let u = a.sub_spec(t);
    let hi = u.add_spec(t);
    let lo = a.sub_spec(hi);
    lemma_split_halves(value(a), value(t), value(u), value(hi), value(lo));
    if sum_rounds(value, hi, lo) {
        lemma_nearest_of_grid(value(hi) + value(lo), value(hi.add_spec(lo)));
    }
}

/// For finite doubles `a` and `b`, one of them zero or the two in normal
/// form with exponents that add up to 1074 at least (either may have a
/// short mantissa at the least exponent), the two components of
/// [`two_prod`](super::two_prod) add up to the exact product of `a` and
/// `b`.
pub proof fn lemma_two_prod_exact<T: Limb>(value: spec_fn(T) -> int, a: T, b: T)
    requires
        on_grid(value(a)),
        on_grid(value(b)),
        product_keeps_bits(value(a), value(b)),
        two_prod_rounds(value, a, b),
    ensures
        (value(two_prod_spec(a, b).0) + value(two_prod_spec(a, b).1)) * unit_scale() == value(a)
            * value(b),
{
    let p = a.mul_spec(b);
    let ta = a.mul_spec(split_factor());
    let ua = a.sub_spec(ta);
    let ah = ua.add_spec(ta);
    let al = a.sub_spec(ah);
    let tb = b.mul_spec(split_factor());
    let ub = b.sub_spec(tb);
    let bh = ub.add_spec(tb);
    let bl = b.sub_spec(bh);
    let hh = ah.mul_spec(bh);
    let hl = ah.mul_spec(bl);
    let lh = al.mul_spec(bh);
    let ll = al.mul_spec(bl);
    let s1 = hh.sub_spec(p);
    let s2 = s1.add_spec(hl);
    let s3 = s2.add_spec(lh);
    let e = s3.add_spec(ll);
    lemma_two_prod(
        value(a),
        value(b),
        value(p),
        (
            value(ta),
            value(ua),
            value(ah),
            value(al),
            value(tb),
            value(ub),
            value(bh),
            value(bl),
        ),
        (value(hh), value(hl), value(lh), value(ll)),
        (value(s1), value(s2), value(s3), value(e)),
    );
}

/// Each operation of [`mul12`](super::mul12) on `x` and `y` rounds to
/// nearest, and the products in the two splittings are in range.
pub open spec fn mul12_rounds<T: Limb>(value: spec_fn(T) -> int, x: T, y: T) -> bool {
    let a = split_spec(x);
    let b = split_spec(y);
    let p = a.0.mul_spec(b.0);
    let hl = a.0.mul_spec(b.1);
    let lh = a.1.mul_spec(b.0);
    let q = hl.add_spec(lh);
    let r = p.add_spec(q);
    &&& split_rounds(value, x)
    &&& split_rounds(value, y)
    &&& product_rounds(value, a.0, b.0)
    &&& product_rounds(value, a.0, b.1)
    &&& product_rounds(value, a.1, b.0)
    &&& sum_rounds(value, hl, lh)
    &&& sum_rounds(value, p, q)
    &&& difference_rounds(value, p, r)
    &&& sum_rounds(value, p.sub_spec(r), q)
    &&& sum_rounds(value, p.sub_spec(r).add_spec(q), lh)
}

/// The exact product of `x` and `y` is a finite double.
pub open spec fn product_on_grid(x: int, y: int) -> bool {
    exists|n: int| #[trigger] on_grid(n) && x * y == n * unit_scale()
}

/// For finite doubles `x` and `y` with mantissas of 26 bits at most whose
/// exact product is a finite double, [`mul12`](super::mul12) returns that
/// product and zero.
pub proof fn lemma_mul12_short<T: Limb>(value: spec_fn(T) -> int, x: T, y: T)
    requires
        on_grid(value(x)),
        on_grid(value(y)),
        fits(value(x), 26),
        fits(value(y), 26),
        product_on_grid(value(x), value(y)),
        mul12_rounds(value, x, y),
    ensures
        value(mul12_spec(x, y).0) * unit_scale() == value(x) * value(y),
        value(mul12_spec(x, y).1) == 0,
{
    let tx = x.mul_spec(split_factor());
    let ux = x.sub_spec(tx);
    let a = split_spec(x);
    let ty = y.mul_spec(split_factor());
    let uy = y.sub_spec(ty);
    let b = split_spec(y);
    let p = a.0.mul_spec(b.0);
    let hl = a.0.mul_spec(b.1);
    let lh = a.1.mul_spec(b.0);
    let q = hl.add_spec(lh);
    let r = p.add_spec(q);
    let k = unit_scale();
    lemma_split_short(value(x), value(tx), value(ux), value(a.0), value(a.1));
    lemma_split_short(value(y), value(ty), value(uy), value(b.0), value(b.1));
    let n = choose|n: int| #[trigger] on_grid(n) && value(x) * value(y) == n * k;
    lemma_zero_on_grid();
    assert(value(a.0) * value(b.1) == 0 * k && value(a.1) * value(b.0) == 0 * k)
        by (nonlinear_arith)
        requires
            value(b.1) == 0,
            value(a.1) == 0,
    ;
    lemma_product_scaled(n, value(p));
    lemma_nearest_of_grid(n, value(p));
    lemma_product_scaled(0, value(hl));
    lemma_nearest_of_grid(0, value(hl));
    lemma_product_scaled(0, value(lh));
    lemma_nearest_of_grid(0, value(lh));
    lemma_nearest_of_grid(0, value(q));
    lemma_nearest_of_grid(n, value(r));
    lemma_nearest_of_grid(0, value(p.sub_spec(r)));
    lemma_nearest_of_grid(0, value(p.sub_spec(r).add_spec(q)));
    lemma_nearest_of_grid(0, value(p.sub_spec(r).add_spec(q).add_spec(lh)));
}

/// Each operation of [`two_prod_fma`](super::two_prod_fma) on `a` and `b`
/// rounds to nearest: the product, which is in range, and the fused
/// multiply-add, which rounds once. The negative of the product is exact.
pub open spec fn two_prod_fma_rounds<T: Limb + MulAdd>(
    value: spec_fn(T) -> int,
    a: T,
    b: T,
) -> bool {
    let p = a.mul_spec(b);
    &&& magnitude(value(a) * value(b)) <= greatest() * unit_scale()
    &&& product_rounds(value, a, b)
    &&& value(p.neg_spec()) == -value(p)
    &&& nearest_product(
        value(a) * value(b) + value(p.neg_spec()) * unit_scale(),
        value(a.mul_add_spec(b, p.neg_spec())),
    )
}

/// For finite doubles `a` and `b`, one of them zero or the two in normal
/// form with exponents that add up to 1074 at least (either may have a
/// short mantissa at the least exponent), the two components of
/// [`two_prod_fma`](super::two_prod_fma) add up to the exact product of
/// `a` and `b`.
pub proof fn lemma_two_prod_fma_exact<T: Limb + MulAdd>(value: spec_fn(T) -> int, a: T, b: T)
    requires
        on_grid(value(a)),
        on_grid(value(b)),
        product_keeps_bits(value(a), value(b)),
        two_prod_fma_rounds(value, a, b),
    ensures
        (value(two_prod_fma_spec(a, b).0) + value(two_prod_fma_spec(a, b).1)) * unit_scale()
            == value(a) * value(b),
{
    let p = a.mul_spec(b);
    let e = a.mul_add_spec(b, p.neg_spec());
    assert(value(a) * value(b) + (-value(p)) * unit_scale() == value(a) * value(b) - value(p)
        * unit_scale()) by (nonlinear_arith);
    lemma_two_prod_fma(value(a), value(b), value(p), value(e));
}

/// `a` and `b` are finite doubles with `a` no less than `b` in magnitude,
/// and each operation of [`quick_two_sum`](super::quick_two_sum) on them
/// rounds to nearest.
pub open spec fn quick_two_sum_applies<T: Limb>(value: spec_fn(T) -> int, a: T, b: T) -> bool {
    &&& on_grid(value(a))
    &&& on_grid(value(b))
    &&& magnitude(value(a)) >= magnitude(value(b))
    &&& quick_two_sum_rounds(value, a, b)
}

/// In the first pass of [`renormalise`](super::renormalise) each limb is a
/// finite double no less in magnitude than the sum of those after it, and
/// each operation rounds to nearest.
pub open spec fn cascade_applies<T: Limb>(value: spec_fn(T) -> int, a: (T, T, T, T, T)) -> bool {
    let x1 = quick_two_sum_spec(a.3, a.4);
    let x2 = quick_two_sum_spec(a.2, x1.0);
    let x3 = quick_two_sum_spec(a.1, x2.0);
    &&& quick_two_sum_applies(value, a.3, a.4)
    &&& quick_two_sum_applies(value, a.2, x1.0)
    &&& quick_two_sum_applies(value, a.1, x2.0)
    &&& quick_two_sum_applies(value, a.0, x3.0)
}

/// The first pass of [`renormalise`](super::renormalise) keeps the total:
/// for limbs in order of magnitude, the five terms it leaves add up to the
/// exact sum of the five limbs.
pub proof fn lemma_renormalise_cascade_exact<T: Limb>(
    value: spec_fn(T) -> int,
    a: (T, T, T, T, T),
)
    requires
        cascade_applies(value, a),
    ensures
        ({
            let t = renormalise_cascade(a);
            value(t[0]) + value(t[1]) + value(t[2]) + value(t[3]) + value(t[4]) == value(a.0)
                + value(a.1) + value(a.2) + value(a.3) + value(a.4)
        }),
{
    let x1 = quick_two_sum_spec(a.3, a.4);
    let x2 = quick_two_sum_spec(a.2, x1.0);
    let x3 = quick_two_sum_spec(a.1, x2.0);
    lemma_quick_two_sum_exact(value, a.3, a.4);
    lemma_quick_two_sum_exact(value, a.2, x1.0);
    lemma_quick_two_sum_exact(value, a.1, x2.0);
    lemma_quick_two_sum_exact(value, a.0, x3.0);
}

/// Each operation of [`add2`](super::add2) on `x` and `y` rounds to
/// nearest.
pub open spec fn add2_rounds<T: Limb>(value: spec_fn(T) -> int, x: (T, T), y: (T, T)) -> bool {
    let r = x.0.add_spec(y.0);
    &&& sum_rounds(value, x.0, y.0)
    &&& if greater(x.0.abs_spec(), y.0.abs_spec()) {
        let d = x.0.sub_spec(r);
        let s1 = d.add_spec(y.0);
        let s2 = s1.add_spec(y.1);
        &&& difference_rounds(value, x.0, r)
        &&& sum_rounds(value, d, y.0)
        &&& sum_rounds(value, s1, y.1)
        &&& sum_rounds(value, s2, x.1)
        &&& quick_two_sum_rounds(value, r, s2.add_spec(x.1))
    } else {
        let d = y.0.sub_spec(r);
        let s1 = d.add_spec(x.0);
        let s2 = s1.add_spec(x.1);
        &&& difference_rounds(value, y.0, r)
        &&& sum_rounds(value, d, x.0)
        &&& sum_rounds(value, s1, x.1)
        &&& sum_rounds(value, s2, y.1)
        &&& quick_two_sum_rounds(value, r, s2.add_spec(y.1))
    }
}

/// The zero pair is neutral in [`add2`](super::add2): for a pair `x` of
/// finite doubles whose high part is no less than its low part in
/// magnitude, the sum of `x` and the zero pair stands for the number that
/// `x` stands for.
pub proof fn lemma_add2_zero_keeps_value<T: Limb>(value: spec_fn(T) -> int, x: (T, T))
    requires
        on_grid(value(x.0)),
        on_grid(value(x.1)),
        magnitude(value(x.0)) >= magnitude(value(x.1)),
        value(zero::<T>()) == 0,
        add2_rounds(value, x, (zero::<T>(), zero::<T>())),
    ensures
        ({
            let r = add2_spec(x, (zero::<T>(), zero::<T>()));
            value(r.0) + value(r.1) == value(x.0) + value(x.1)
        }),
{
    let z = zero::<T>();
    let r = x.0.add_spec(z);
    lemma_zero_on_grid();
    lemma_on_grid_negated(value(x.0));
    lemma_nearest_of_grid(value(x.0) + 0, value(r));
    if greater(x.0.abs_spec(), z.abs_spec()) {
        let d = x.0.sub_spec(r);
        let s1 = d.add_spec(z);
        let s2 = s1.add_spec(z);
        let s = s2.add_spec(x.1);
        lemma_nearest_of_grid(value(x.0) - value(r), value(d));
        lemma_nearest_of_grid(value(d) + 0, value(s1));
        lemma_nearest_of_grid(value(s1) + 0, value(s2));
        lemma_nearest_of_grid(value(s2) + value(x.1), value(s));
        lemma_quick_two_sum_exact(value, r, s);
    } else {
        let d = z.sub_spec(r);
        let s1 = d.add_spec(x.0);
        let s2 = s1.add_spec(x.1);
        let s = s2.add_spec(z);
        lemma_nearest_of_grid(0 - value(r), value(d));
        lemma_nearest_of_grid(value(d) + value(x.0), value(s1));
        lemma_nearest_of_grid(value(s1) + value(x.1), value(s2));
        lemma_nearest_of_grid(value(s2) + 0, value(s));
        lemma_quick_two_sum_exact(value, r, s);
    }
}

/// The total of the terms `t[i]` to `t[4]`.
pub open spec fn terms_from<T: Limb>(value: spec_fn(T) -> int, t: Seq<T>, i: int) -> int
    decreases 5 - i,
{
    if 1 <= i < 5 {
        value(t[i]) + terms_from(value, t, i + 1)
    } else {
        0
    }
}

/// The total of four limbs.
pub open spec fn four_total<T: Limb>(value: spec_fn(T) -> int, b: Seq<T>) -> int {
    value(b[0]) + value(b[1]) + value(b[2]) + value(b[3])
}

/// In the second pass of [`renormalise`](super::renormalise), from the term
/// `t[i]` on with the carry `s`, the carry is a finite double no less in
/// magnitude than the term it is added to, each operation rounds to
/// nearest, and a rounding error that compares equal to zero is zero.
pub open spec fn second_pass_applies<T: Limb>(
    value: spec_fn(T) -> int,
    t: Seq<T>,
    i: int,
    s: T,
) -> bool
    decreases 5 - i,
{
    if 1 <= i < 5 {
        let x = quick_two_sum_spec(s, t[i]);
        &&& quick_two_sum_applies(value, s, t[i])
        &&& !differs(x.1, zero()) ==> value(x.1) == 0
        &&& second_pass_applies(
            value,
            t,
            i + 1,
            if differs(x.1, zero()) {
                x.1
            } else {
                x.0
            },
        )
    } else {
        true
    }
}

/// The second pass of [`renormalise`](super::renormalise) keeps the total:
/// the four limbs it leaves, with the last carry where that found no slot,
/// add up to the limbs it began with, the carry and the terms yet to come.
pub proof fn lemma_second_pass_exact<T: Limb>(
    value: spec_fn(T) -> int,
    t: Seq<T>,
    i: int,
    s: T,
    b: Seq<T>,
    k: int,
)
    requires
        1 <= i <= 5,
        0 <= k < i,
        b.len() == 4,
        value(zero::<T>()) == 0,
        forall|j: int| k <= j < 4 ==> value(#[trigger] b[j]) == 0,
        second_pass_applies(value, t, i, s),
    ensures
        ({
            let r = renormalise_compact(t, i, s, b, k);
            let end = renormalise_end(t, i, s, k);
            &&& r.len() == 4
            &&& four_total(value, r) + (if end.0 < 4 {
                0
            } else {
                value(end.1)
            }) == four_total(value, b) + value(s) + terms_from(value, t, i)
        }),
    decreases 5 - i,
{
    if i < 5 {
        let x = quick_two_sum_spec(s, t[i]);
        lemma_quick_two_sum_exact(value, s, t[i]);
        if differs(x.1, zero()) {
            let filled = b.update(k, x.0);
            assert(four_total(value, filled) == four_total(value, b) + value(x.0));
            lemma_second_pass_exact(value, t, i + 1, x.1, filled, k + 1);
        } else {
            lemma_second_pass_exact(value, t, i + 1, x.0, b, k);
        }
    } else if k < 4 {
        let filled = b.update(k, s);
        assert(four_total(value, filled) == four_total(value, b) + value(s));
    }
}

/// The four limbs of [`renormalise`](super::renormalise) keep the total of
/// the five: for limbs in order of magnitude, they add up to the exact sum
/// of the five limbs where the last carry finds a free slot. Where all
/// four slots are filled before, the four limbs and that carry add up to
/// it.
pub proof fn lemma_renormalise_exact<T: Limb>(value: spec_fn(T) -> int, a: (T, T, T, T, T))
    requires
        value(zero::<T>()) == 0,
        cascade_applies(value, a),
        second_pass_applies(value, renormalise_cascade(a), 1, renormalise_cascade(a)[0]),
    ensures
        ({
            let r = renormalise_spec(a);
            let t = renormalise_cascade(a);
            let end = renormalise_end(t, 1, t[0], 0);
            let total = value(a.0) + value(a.1) + value(a.2) + value(a.3) + value(a.4);
            &&& end.0 < 4 ==> value(r.0) + value(r.1) + value(r.2) + value(r.3) == total
            &&& end.0 >= 4 ==> value(r.0) + value(r.1) + value(r.2) + value(r.3) + value(end.1)
                == total
        }),
{
    let t = renormalise_cascade(a);
    let b = seq![zero::<T>(), zero(), zero(), zero()];
    lemma_renormalise_cascade_exact(value, a);
    lemma_second_pass_exact(value, t, 1, t[0], b, 0);
    reveal_with_fuel(terms_from, 5);
    assert(terms_from(value, t, 1) == value(t[1]) + value(t[2]) + value(t[3]) + value(t[4]));
}

} // verus!
