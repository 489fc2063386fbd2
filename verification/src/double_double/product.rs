//! The product of two doubles and what rounding takes from it.
//!
//! The exact product of two finite doubles is counted in squares of the
//! least positive double. `2^1074` such squares make one least positive
//! double, so a product rounds to nearest where the result, taken `2^1074`
//! times, is as near to it as a point of the grid can be.
use vstd::prelude::*;
use vstd::arithmetic::power2::{lemma2_to64, lemma_pow2_adds, lemma_pow2_pos, pow2};
use crate::double_double::rounding::{
    lemma_divisible, lemma_nearest_is_nearest, lemma_nearest_negated, lemma_nearest_of_grid,
    lemma_on_grid, lemma_on_grid_negated, lemma_pow2_on_grid, lemma_split, lemma_zero_on_grid,
    magnitude, nearest, on_grid, scaled, split_multiplier,
};
use crate::double_double::splitting::{
    lemma_on_grid_wide, lemma_pow2_increases, lemma_small_powers, lemma_split_normal,
};

verus! {

/// How many squares of the least positive double make one least positive
/// double: `2^1074`.
pub open spec fn unit_scale() -> int {
    pow2(1074) as int
}

/// The greatest finite double.
pub open spec fn greatest() -> int {
    pow2(2098) - pow2(2045)
}

/// `r` is a finite double, and no finite double is nearer to the product
/// `n`, which is counted in squares of the least positive double.
#[verifier::opaque]
pub open spec fn nearest_product(n: int, r: int) -> bool {
    &&& on_grid(r)
    &&& forall|x: int| #[trigger]
        on_grid(x) ==> magnitude(r * unit_scale() - n) <= magnitude(x * unit_scale() - n)
}

/// Rounding a product to nearest is symmetric about zero.
pub proof fn lemma_nearest_product_negated(n: int, r: int)
    requires
        nearest_product(n, r),
    ensures
        nearest_product(-n, -r),
{
    reveal(nearest_product);
    lemma_on_grid_negated(r);
    let k = unit_scale();
    assert forall|x: int| #[trigger] on_grid(x) implies magnitude((-r) * k - (-n)) <= magnitude(
        x * k - (-n),
    ) by {
        lemma_on_grid_negated(x);
        assert(magnitude(r * k - n) <= magnitude((-x) * k - n));
        assert((-r) * k == -(r * k) && (-x) * k == -(x * k)) by (nonlinear_arith);
    }
}

/// A product that is a whole number of least positive doubles rounds as
/// that whole number does.
pub proof fn lemma_product_scaled(n: int, r: int)
    requires
        nearest_product(n * unit_scale(), r),
    ensures
        nearest(n, r),
{
    reveal(nearest_product);
    reveal(nearest);
    let k = unit_scale();
    lemma_pow2_pos(1074);
    assert forall|x: int| #[trigger] on_grid(x) implies magnitude(r - n) <= magnitude(x - n) by {
        assert(magnitude(r * k - n * k) <= magnitude(x * k - n * k));
        assert(magnitude(r - n) <= magnitude(x - n)) by (nonlinear_arith)
            requires
                magnitude(r * k - n * k) <= magnitude(x * k - n * k),
                k > 0,
        ;
    }
}

/// A number in range below `2^(53 + j)` is rounded by half of `2^j` at
/// most.
pub proof fn lemma_half_step(n: int, r: int, j: nat)
    requires
        nearest(n, r),
        0 <= n <= greatest(),
        n < pow2(53 + j),
        j <= 2045,
    ensures
        2 * magnitude(n - r) <= pow2(j),
{
    lemma_small_powers();
    let step = pow2(j);
    lemma_pow2_pos(j);
    lemma_pow2_adds(53, j);
    lemma_pow2_adds(53, 2045);
    lemma_pow2_pos(2045);
    let f = n / (step as int);
    let lower = f * step;
    assert(lower <= n < lower + step && f >= 0) by (nonlinear_arith)
        requires
            f == n / (step as int),
            lower == f * step,
            step > 0,
            n >= 0,
    ;
    assert(f < pow2(53)) by (nonlinear_arith)
        requires
            f * step <= n,
            n < pow2(53) * step,
            step > 0,
    ;
    lemma_on_grid(lower, f as nat, j);
    if n == lower {
        lemma_nearest_of_grid(n, r);
    } else {
        // the grid point above is in range: the greatest double is a multiple of the step
        let d = (2045 - j) as nat;
        lemma_pow2_adds(d, j);
        lemma_pow2_pos(d);
        let gq = (pow2(53) - 1) * pow2(d);
        assert(greatest() == gq * step) by (nonlinear_arith)
            requires
                greatest() == pow2(53) * pow2(2045) - pow2(2045),
                pow2(2045) == pow2(d) * step,
                gq == (pow2(53) - 1) * pow2(d),
        ;
        assert(f + 1 <= gq) by (nonlinear_arith)
            requires
                f * step < gq * step,
                step > 0,
        ;
        let upper = lower + step;
        assert(upper == (f + 1) * step && upper <= gq * step) by (nonlinear_arith)
            requires
                upper == lower + step,
                lower == f * step,
                f + 1 <= gq,
                step > 0,
        ;
        lemma_on_grid_wide(upper, (f + 1) as nat, j);
        lemma_nearest_is_nearest(n, r, lower);
        lemma_nearest_is_nearest(n, r, upper);
    }
}

/// The product of two multiples of powers of two whose product is a
/// multiple of the scale.
proof fn lemma_scaled_product(u: int, v: int, x: int, y: int, pa: int, pb: int, k: int, g: int)
    requires
        u == x * pa,
        v == y * pb,
        pa * pb == k * g,
    ensures
        u * v == ((x * y) * g) * k,
{
    assert(u * v == (x * y) * (pa * pb)) by (nonlinear_arith)
        requires
            u == x * pa,
            v == y * pb,
    ;
    assert((x * y) * (k * g) == ((x * y) * g) * k) by (nonlinear_arith);
}

/// The four products of the halves of two mantissas: they add up to the
/// product of the mantissas, and none is above `2^52` times the power of
/// two it is counted in.
proof fn lemma_product_parts(ma: int, mb: int, qa: int, la: int, qb: int, lb: int)
    requires
        0x10000000000000 <= ma < 0x20000000000000,
        0x10000000000000 <= mb < 0x20000000000000,
        ma == qa * 0x8000000 + la,
        mb == qb * 0x8000000 + lb,
        0 <= qa <= 0x4000000,
        0 <= qb <= 0x4000000,
        -0x4000000 <= la <= 0x4000000,
        -0x4000000 <= lb <= 0x4000000,
    ensures
        ma * mb == (qa * qb) * 0x40000000000000 + (qa * lb) * 0x8000000 + (la * qb) * 0x8000000 + la
            * lb,
        1 <= qa * qb <= 0x10000000000000,
        -0x10000000000000 <= qa * lb <= 0x10000000000000,
        -0x10000000000000 <= la * qb <= 0x10000000000000,
        -0x10000000000000 <= la * lb <= 0x10000000000000,
        0x100000000000000000000000000 <= ma * mb,
        ma * mb < 0x400000000000000000000000000,
{
    assert(qa >= 1 && qb >= 1);
    assert(ma * mb == (qa * qb) * 0x40000000000000 + (qa * lb) * 0x8000000 + (la * qb) * 0x8000000
        + la * lb) by (nonlinear_arith)
        requires
            ma == qa * 0x8000000 + la,
            mb == qb * 0x8000000 + lb,
    ;
    assert(1 <= qa * qb <= 0x10000000000000) by (nonlinear_arith)
        requires
            1 <= qa <= 0x4000000,
            1 <= qb <= 0x4000000,
    ;
    assert(-0x10000000000000 <= qa * lb <= 0x10000000000000) by (nonlinear_arith)
        requires
            0 <= qa <= 0x4000000,
            -0x4000000 <= lb <= 0x4000000,
    ;
    assert(-0x10000000000000 <= la * qb <= 0x10000000000000) by (nonlinear_arith)
        requires
            0 <= qb <= 0x4000000,
            -0x4000000 <= la <= 0x4000000,
    ;
    assert(-0x10000000000000 <= la * lb <= 0x10000000000000) by (nonlinear_arith)
        requires
            -0x4000000 <= la <= 0x4000000,
            -0x4000000 <= lb <= 0x4000000,
    ;
    assert(0x100000000000000000000000000 <= ma * mb < 0x400000000000000000000000000)
        by (nonlinear_arith)
        requires
            0x10000000000000 <= ma < 0x20000000000000,
            0x10000000000000 <= mb < 0x20000000000000,
    ;
}

/// A multiple of `2^(j + g)` whose factor is `2^53` at most in magnitude
/// and that stays in range is on the grid.
proof fn lemma_multiple_on_grid(n: int, w: int, j: nat, g: nat, c: int)
    requires
        c == pow2(j),
        n == (w * c) * pow2(g),
        -0x20000000000000 <= w <= 0x20000000000000,
        magnitude(n) < pow2(2098),
    ensures
        on_grid(n),
{
    lemma_small_powers();
    lemma_pow2_adds(j, g);
    lemma_pow2_pos(j + g);
    assert(magnitude(n) == magnitude(w) * pow2(j + g)) by (nonlinear_arith)
        requires
            n == (w * c) * pow2(g),
            pow2(j + g) == c * pow2(g),
            pow2(j + g) > 0,
    ;
    lemma_on_grid_wide(n, magnitude(w), j + g);
}

/// The four sums of the error of a product: with the four products of the
/// halves exact, each sum is a point of the grid, and the last one is what
/// rounding took from the product.
proof fn lemma_product_sums(
    g: nat,
    hq: int,
    xq: int,
    yq: int,
    zq: int,
    pp: int,
    p: int,
    hh: int,
    hl: int,
    lh: int,
    ll: int,
    s1: int,
    s2: int,
    s3: int,
    e: int,
)
    requires
        1 <= hq <= 0x10000000000000,
        -0x10000000000000 <= xq <= 0x10000000000000,
        -0x10000000000000 <= yq <= 0x10000000000000,
        -0x10000000000000 <= zq <= 0x10000000000000,
        0 <= pp,
        p == (pp * 0x10000000000000) * pow2(g),
        hh == (hq * 0x40000000000000) * pow2(g),
        hl == (xq * 0x8000000) * pow2(g),
        lh == (yq * 0x8000000) * pow2(g),
        ll == zq * pow2(g),
        hh < pow2(2098),
        p < pow2(2098),
        0x100000000000000000000000000 <= hq * 0x40000000000000 + xq * 0x8000000 + yq * 0x8000000
            + zq,
        (hq * 0x40000000000000 + xq * 0x8000000 + yq * 0x8000000 + zq) * pow2(g) < pow2(2098),
        -0x10000000000000 <= hq * 0x40000000000000 + xq * 0x8000000 + yq * 0x8000000 + zq - pp
            * 0x10000000000000 <= 0x10000000000000,
        nearest(hh - p, s1),
        nearest(s1 + hl, s2),
        nearest(s2 + lh, s3),
        nearest(s3 + ll, e),
    ensures
        p + e == (hq * 0x40000000000000 + xq * 0x8000000 + yq * 0x8000000 + zq) * pow2(g),
{
    lemma_small_powers();
    let gg = pow2(g) as int;
    lemma_pow2_pos(g);
    let nq = hq * 0x40000000000000 + xq * 0x8000000 + yq * 0x8000000 + zq;
    let rq = nq - pp * 0x10000000000000;
    assert(pow2(54) == 0x40000000000000) by {
        lemma_pow2_adds(1, 53);
    }
    // every term is below the high product in magnitude, which is in range
    assert(hq * 0x40000000000000 >= 0x40000000000000);
    // the first sum
    let w1 = hq * 4 - pp;
    assert(hh - p == (w1 * 0x10000000000000) * gg) by (nonlinear_arith)
        requires
            hh == (hq * 0x40000000000000) * gg,
            p == (pp * 0x10000000000000) * gg,
            w1 == hq * 4 - pp,
    ;
    assert(w1 * 0x10000000000000 == rq - xq * 0x8000000 - yq * 0x8000000 - zq);
    assert(-0x20000000 <= w1 <= 0x20000000);
    assert(magnitude(hh - p) < pow2(2098)) by {
        assert(hh >= 0 && p >= 0) by (nonlinear_arith)
            requires
                hh == (hq * 0x40000000000000) * gg,
                p == (pp * 0x10000000000000) * gg,
                hq >= 1,
                pp >= 0,
                gg > 0,
        ;
    }
    lemma_multiple_on_grid(hh - p, w1, 52, g, 0x10000000000000);
    lemma_nearest_of_grid(hh - p, s1);
    // the second sum
    let w2 = w1 * 0x2000000 + xq;
    assert(s1 + hl == (w2 * 0x8000000) * gg) by (nonlinear_arith)
        requires
            s1 == (w1 * 0x10000000000000) * gg,
            hl == (xq * 0x8000000) * gg,
            w2 == w1 * 0x2000000 + xq,
    ;
    assert(w2 * 0x8000000 == rq - yq * 0x8000000 - zq);
    assert(-0x10000000000000 - 0x8000000 <= w2 <= 0x10000000000000 + 0x8000000);
    assert(magnitude(s1 + hl) <= nq * gg) by (nonlinear_arith)
        requires
            s1 + hl == (w2 * 0x8000000) * gg,
            -0x10000000000000 - 0x8000000 <= w2 <= 0x10000000000000 + 0x8000000,
            nq >= 0x100000000000000000000000000,
            gg > 0,
    ;
    lemma_multiple_on_grid(s1 + hl, w2, 27, g, 0x8000000);
    lemma_nearest_of_grid(s1 + hl, s2);
    // the third sum
    let w3 = w2 * 0x8000000 + yq * 0x8000000;
    assert(s2 + lh == w3 * gg) by (nonlinear_arith)
        requires
            s2 == (w2 * 0x8000000) * gg,
            lh == (yq * 0x8000000) * gg,
            w3 == w2 * 0x8000000 + yq * 0x8000000,
    ;
    assert(w3 == rq - zq);
    assert(-0x20000000000000 <= w3 <= 0x20000000000000);
    assert(magnitude(s2 + lh) <= nq * gg) by (nonlinear_arith)
        requires
            s2 + lh == w3 * gg,
            -0x20000000000000 <= w3 <= 0x20000000000000,
            nq >= 0x100000000000000000000000000,
            gg > 0,
    ;
    assert(s2 + lh == (w3 * 1) * gg);
    lemma_multiple_on_grid(s2 + lh, w3, 0, g, 1);
    lemma_nearest_of_grid(s2 + lh, s3);
    // the last sum
    assert(s3 + ll == rq * gg) by (nonlinear_arith)
        requires
            s3 == w3 * gg,
            ll == zq * gg,
            w3 == rq - zq,
    ;
    assert(magnitude(s3 + ll) <= nq * gg) by (nonlinear_arith)
        requires
            s3 + ll == rq * gg,
            -0x10000000000000 <= rq <= 0x10000000000000,
            nq >= 0x100000000000000000000000000,
            gg > 0,
    ;
    assert(s3 + ll == (rq * 1) * gg);
    lemma_multiple_on_grid(s3 + ll, rq, 0, g, 1);
    lemma_nearest_of_grid(s3 + ll, e);
    assert(p + e == nq * gg) by (nonlinear_arith)
        requires
            e == rq * gg,
            p == (pp * 0x10000000000000) * gg,
            rq == nq - pp * 0x10000000000000,
    ;
}

/// A number in range between `2^(104 + g)` and `2^(106 + g)` rounds to a
/// multiple of `2^(52 + g)`, and by `2^(52 + g)` at most.
proof fn lemma_product_rounded(n: int, p: int, nq: int, g: nat) -> (pp: nat)
    requires
        nearest(n, p),
        n == nq * pow2(g),
        0x100000000000000000000000000 <= nq < 0x400000000000000000000000000,
        n <= greatest(),
    ensures
        p == (pp * 0x10000000000000) * pow2(g),
        -0x10000000000000 <= nq - pp * 0x10000000000000 <= 0x10000000000000,
        p < pow2(2098),
{
    lemma_small_powers();
    let gg = pow2(g);
    lemma_pow2_pos(g);
    lemma_pow2_pos(2045);
    lemma_pow2_adds(104, g);
    lemma_pow2_adds(105, g);
    lemma_pow2_adds(106, g);
    lemma_pow2_adds(52, g);
    lemma_pow2_adds(53, g);
    lemma_pow2_adds(52, 52);
    lemma_pow2_adds(52, 53);
    lemma_pow2_adds(53, 53);
    lemma_pow2_adds(52, 52 + g);
    assert(pow2(104) == 0x100000000000000000000000000 && pow2(105)
        == 0x200000000000000000000000000 && pow2(106) == 0x400000000000000000000000000);
    assert(pow2(104 + g) <= n < pow2(106 + g)) by (nonlinear_arith)
        requires
            n == nq * gg,
            pow2(104) <= nq < pow2(106),
            pow2(104 + g) == pow2(104) * gg,
            pow2(106 + g) == pow2(106) * gg,
            gg > 0,
    ;
    assert(104 + g < 2098) by {
        if 104 + g >= 2098 {
            lemma_pow2_increases(2098, 104 + g);
        }
    }
    lemma_pow2_on_grid(104 + g);
    lemma_nearest_is_nearest(n, p, pow2(104 + g) as int);
    assert(p >= pow2(104 + g));
    assert(104 + g == 52 + (52 + g));
    let pp = lemma_divisible(p, 52 + g);
    assert(p == (pp * 0x10000000000000) * gg) by (nonlinear_arith)
        requires
            p == pp * pow2(52 + g),
            pow2(52 + g) == 0x10000000000000 * gg,
    ;
    if n < pow2(105 + g) {
        assert(105 + g == 53 + (52 + g));
        lemma_half_step(n, p, 52 + g);
    } else {
        assert(105 + g < 2098) by {
            if 105 + g >= 2098 {
                lemma_pow2_increases(2098, 105 + g);
            }
        }
        assert(106 + g == 53 + (53 + g));
        lemma_half_step(n, p, 53 + g);
    }
    let rq = nq - pp * 0x10000000000000;
    assert(-0x10000000000000 <= rq <= 0x10000000000000) by (nonlinear_arith)
        requires
            2 * magnitude(n - p) <= 0x20000000000000 * gg,
            n == nq * gg,
            p == (pp * 0x10000000000000) * gg,
            rq == nq - pp * 0x10000000000000,
            gg > 0,
    ;
    pp
}

/// The roundings of the product with an error term, for two positive
/// doubles with mantissas of `2^52` at least.
///
/// The exact product is in range and rounds to `p`. Each operand is split
/// into halves; the four products of the halves round to `hh`, `hl`, `lh`
/// and `ll`; the difference of `hh` and `p` rounds to `s1`, and adding
/// `hl`, `lh` and `ll` in turn rounds to `s2`, `s3` and `e`. Where the
/// exponents of the operands add up to 1074 at least, none of the products
/// of the halves and none of the sums is rounded at all, and `e` is what
/// rounding took from the product.
proof fn lemma_two_prod_positive(
    a: int,
    b: int,
    ma: nat,
    ka: nat,
    mb: nat,
    kb: nat,
    p: int,
    halves: (int, int, int, int, int, int, int, int),
    products: (int, int, int, int),
    sums: (int, int, int, int),
)
    requires
        on_grid(a),
        on_grid(b),
        a == ma * pow2(ka),
        b == mb * pow2(kb),
        pow2(52) <= ma < pow2(53),
        pow2(52) <= mb < pow2(53),
        ka + kb >= 1074,
        a * b <= greatest() * unit_scale(),
        halves.2 * halves.6 < pow2(2098) * unit_scale(),
        split_multiplier() * a < pow2(2098),
        split_multiplier() * b < pow2(2098),
        nearest_product(a * b, p),
        nearest(split_multiplier() * a, halves.0),
        nearest(a - halves.0, halves.1),
        nearest(halves.1 + halves.0, halves.2),
        nearest(a - halves.2, halves.3),
        nearest(split_multiplier() * b, halves.4),
        nearest(b - halves.4, halves.5),
        nearest(halves.5 + halves.4, halves.6),
        nearest(b - halves.6, halves.7),
        nearest_product(halves.2 * halves.6, products.0),
        nearest_product(halves.2 * halves.7, products.1),
        nearest_product(halves.3 * halves.6, products.2),
        nearest_product(halves.3 * halves.7, products.3),
        nearest(products.0 - p, sums.0),
        nearest(sums.0 + products.1, sums.1),
        nearest(sums.1 + products.2, sums.2),
        nearest(sums.2 + products.3, sums.3),
    ensures
        (p + sums.3) * unit_scale() == a * b,
{
    lemma_small_powers();
    let (ta, ua, ah, al, tb, ub, bh, bl) = halves;
    let (hh, hl, lh, ll) = products;
    let k = unit_scale();
    lemma_pow2_pos(1074);
    lemma_split(a, ta, ua, ah, al);
    lemma_split(b, tb, ub, bh, bl);
    let (qa_, la) = lemma_split_normal(a, ta, ua, ma, ka);
    let (qb_, lb) = lemma_split_normal(b, tb, ub, mb, kb);
    let qa = qa_ as int;
    let qb = qb_ as int;
    let g = (ka + kb - 1074) as nat;
    let gg = pow2(g) as int;
    let pa = pow2(ka) as int;
    let pb = pow2(kb) as int;
    lemma_pow2_pos(g);
    lemma_pow2_adds(ka, kb);
    lemma_pow2_adds(1074, g);
    lemma_pow2_adds(27, ka);
    lemma_pow2_adds(27, kb);
    assert(pa * pb == k * gg);
    // the halves as multiples of the powers of the operands
    assert(ah == (qa * 0x8000000) * pa && bh == (qb * 0x8000000) * pb) by (nonlinear_arith)
        requires
            ah == qa * pow2(27 + ka),
            bh == qb * pow2(27 + kb),
            pow2(27 + ka) == 0x8000000 * pa,
            pow2(27 + kb) == 0x8000000 * pb,
    ;
    lemma_product_parts(ma as int, mb as int, qa, la, qb, lb);
    let hq = qa * qb;
    let xq = qa * lb;
    let yq = la * qb;
    let zq = la * lb;
    let nq = (ma * mb) as int;
    let nn = nq * gg;
    let n_hh = (hq * 0x40000000000000) * gg;
    let n_hl = (xq * 0x8000000) * gg;
    let n_lh = (yq * 0x8000000) * gg;
    let n_ll = zq * gg;
    // the exact products are whole numbers of least positive doubles
    assert(a * b == nn * k) by {
        lemma_scaled_product(a, b, ma as int, mb as int, pa, pb, k, gg);
    }
    assert(ah * bh == n_hh * k) by {
        lemma_scaled_product(ah, bh, qa * 0x8000000, qb * 0x8000000, pa, pb, k, gg);
        assert((qa * 0x8000000) * (qb * 0x8000000) == hq * 0x40000000000000) by (nonlinear_arith)
            requires
                hq == qa * qb,
        ;
    }
    assert(ah * bl == n_hl * k) by {
        lemma_scaled_product(ah, bl, qa * 0x8000000, lb, pa, pb, k, gg);
        assert((qa * 0x8000000) * lb == xq * 0x8000000) by (nonlinear_arith)
            requires
                xq == qa * lb,
        ;
    }
    assert(al * bh == n_lh * k) by {
        lemma_scaled_product(al, bh, la, qb * 0x8000000, pa, pb, k, gg);
        assert(la * (qb * 0x8000000) == yq * 0x8000000) by (nonlinear_arith)
            requires
                yq == la * qb,
        ;
    }
    assert(al * bl == n_ll * k) by {
        lemma_scaled_product(al, bl, la, lb, pa, pb, k, gg);
    }
    lemma_product_scaled(nn, p);
    lemma_product_scaled(n_hh, hh);
    lemma_product_scaled(n_hl, hl);
    lemma_product_scaled(n_lh, lh);
    lemma_product_scaled(n_ll, ll);
    // the exact product and the product of the high halves are in range
    assert(nn <= greatest() && n_hh < pow2(2098)) by (nonlinear_arith)
        requires
            nn * k <= greatest() * k,
            n_hh * k < pow2(2098) * k,
            k > 0,
    ;
    lemma_pow2_pos(2045);
    assert(0 <= nn < pow2(2098)) by (nonlinear_arith)
        requires
            nn == nq * gg,
            nq >= 0,
            gg > 0,
            nn <= greatest(),
            greatest() < pow2(2098),
    ;
    // so the products of the halves are not rounded
    assert(pow2(54) == 0x40000000000000) by {
        lemma_pow2_adds(1, 53);
    }
    assert(n_hh >= 0) by (nonlinear_arith)
        requires
            n_hh == (hq * 0x40000000000000) * gg,
            hq >= 1,
            gg > 0,
    ;
    lemma_multiple_on_grid(n_hh, hq, 54, g, 0x40000000000000);
    lemma_nearest_of_grid(n_hh, hh);
    assert(magnitude(n_hl) <= nn && magnitude(n_lh) <= nn && magnitude(n_ll) <= nn)
        by (nonlinear_arith)
        requires
            nn == nq * gg,
            n_hl == (xq * 0x8000000) * gg,
            n_lh == (yq * 0x8000000) * gg,
            n_ll == zq * gg,
            nq >= 0x100000000000000000000000000,
            -0x10000000000000 <= xq <= 0x10000000000000,
            -0x10000000000000 <= yq <= 0x10000000000000,
            -0x10000000000000 <= zq <= 0x10000000000000,
            gg > 0,
    ;
    lemma_multiple_on_grid(n_hl, xq, 27, g, 0x8000000);
    lemma_nearest_of_grid(n_hl, hl);
    lemma_multiple_on_grid(n_lh, yq, 27, g, 0x8000000);
    lemma_nearest_of_grid(n_lh, lh);
    assert(n_ll == (zq * 1) * gg);
    lemma_multiple_on_grid(n_ll, zq, 0, g, 1);
    lemma_nearest_of_grid(n_ll, ll);
    // the rounded product and the sums
    let pp = lemma_product_rounded(nn, p, nq, g);
    lemma_product_sums(
        g,
        hq,
        xq,
        yq,
        zq,
        pp as int,
        p,
        hh,
        hl,
        lh,
        ll,
        sums.0,
        sums.1,
        sums.2,
        sums.3,
    );
}

/// What rounds to nearest is twice the exact number at most in magnitude.
proof fn lemma_nearest_bound(n: int, r: int)
    requires
        nearest(n, r),
    ensures
        on_grid(r),
        magnitude(r) <= 2 * magnitude(n),
{
    lemma_zero_on_grid();
    lemma_nearest_is_nearest(n, r, 0);
}

/// Rounding to nearest keeps step with a power of two: a number that
/// rounds to `r` rounds, taken `2^j` times, to `r` taken `2^j` times,
/// while that stays in range.
proof fn lemma_nearest_scaled(n: int, r: int, j: nat)
    requires
        nearest(n, r),
        j <= 52,
        magnitude(n) < pow2(2044),
    ensures
        nearest(n * pow2(j), r * pow2(j)),
{
    lemma_small_powers();
    let f = pow2(j) as int;
    lemma_pow2_pos(j);
    lemma_nearest_bound(n, r);
    lemma_pow2_adds(1, 2044);
    lemma_pow2_adds(2045, j);
    lemma_pow2_increases(2045 + j, 2098);
    // the scaled result is on the grid
    let (m, k) = choose|m: nat, k: nat| m < pow2(53) && magnitude(r) == #[trigger] scaled(m, k);
    lemma_pow2_adds(k, j);
    assert(magnitude(r * f) == m * pow2(k + j) && magnitude(r * f) < pow2(2045) * f)
        by (nonlinear_arith)
        requires
            magnitude(r) == m * pow2(k),
            pow2(k + j) == pow2(k) * f,
            magnitude(r) < pow2(2045),
            f > 0,
    ;
    lemma_on_grid(r * f, m, k + j);
    // and no point of the grid is nearer
    assert forall|x: int| #[trigger] on_grid(x) implies magnitude(r * f - n * f) <= magnitude(
        x - n * f,
    ) by {
        if on_grid(n) {
            lemma_nearest_of_grid(n, r);
        } else {
            // n does not fit 53 bits: it is 2^53 at least in magnitude
            assert(magnitude(n) >= pow2(53)) by {
                if magnitude(n) < pow2(53) {
                    assert(magnitude(n) * pow2(0) == magnitude(n));
                    lemma_pow2_increases(53, 2098);
                    lemma_on_grid(n, magnitude(n), 0);
                }
            }
            lemma_pow2_adds(52, j);
            lemma_pow2_adds(53, j);
            if magnitude(x) >= pow2(52 + j) {
                // x is a multiple of 2^j, and the quotient is on the grid
                let (mx, kx) = choose|mx: nat, kx: nat|
                    mx < pow2(53) && magnitude(x) == #[trigger] scaled(mx, kx);
                lemma_pow2_pos(kx);
                if kx < j {
                    lemma_pow2_adds(53, kx);
                    assert(mx * pow2(kx) < pow2(53) * pow2(kx)) by (nonlinear_arith)
                        requires
                            mx < pow2(53),
                            pow2(kx) > 0,
                    ;
                    lemma_pow2_increases(53 + kx, 52 + j);
                    assert(false);
                }
                let d = (kx - j) as nat;
                lemma_pow2_adds(d, j);
                let y: int = if x >= 0 {
                    (mx * pow2(d)) as int
                } else {
                    -((mx * pow2(d)) as int)
                };
                assert(x == y * f && magnitude(y) == mx * pow2(d) && magnitude(y) <= magnitude(x))
                    by (nonlinear_arith)
                    requires
                        magnitude(x) == mx * pow2(kx),
                        pow2(kx) == pow2(d) * f,
                        x >= 0 ==> y == mx * pow2(d),
                        x < 0 ==> y == -(mx * pow2(d)),
                        f >= 1,
                ;
                lemma_on_grid(y, mx, d);
                lemma_nearest_is_nearest(n, r, y);
                assert(magnitude(r * f - n * f) <= magnitude(y * f - n * f)) by (nonlinear_arith)
                    requires
                        magnitude(r - n) <= magnitude(y - n),
                        f > 0,
                ;
            } else {
                // x is below 2^(52 + j), which is nearer
                let g: int = if n >= 0 {
                    pow2(52) as int
                } else {
                    -(pow2(52) as int)
                };
                lemma_pow2_on_grid(52);
                lemma_on_grid_negated(pow2(52) as int);
                lemma_nearest_is_nearest(n, r, g);
                assert(magnitude(r * f - n * f) <= magnitude(g * f - n * f)) by (nonlinear_arith)
                    requires
                        magnitude(r - n) <= magnitude(g - n),
                        f > 0,
                ;
                assert(magnitude(g * f - n * f) <= magnitude(x - n * f)) by (nonlinear_arith)
                    requires
                        magnitude(n) >= 2 * pow2(52),
                        n >= 0 ==> g == pow2(52),
                        n < 0 ==> g == -pow2(52),
                        magnitude(x) < pow2(52) * f,
                        f > 0,
                ;
            }
        }
    }
    assert(nearest(n * f, r * f)) by {
        reveal(nearest);
    }
}

/// A whole number of least positive doubles rounds as a product as it
/// rounds as a number.
proof fn lemma_product_unscaled(n: int, r: int)
    requires
        nearest(n, r),
    ensures
        nearest_product(n * unit_scale(), r),
{
    reveal(nearest_product);
    reveal(nearest);
    let k = unit_scale();
    lemma_pow2_pos(1074);
    assert forall|x: int| #[trigger] on_grid(x) implies magnitude(r * k - n * k) <= magnitude(
        x * k - n * k,
    ) by {
        assert(magnitude(r - n) <= magnitude(x - n));
        assert(magnitude(r * k - n * k) <= magnitude(x * k - n * k)) by (nonlinear_arith)
            requires
                magnitude(r - n) <= magnitude(x - n),
                k > 0,
        ;
    }
}

/// `n` is the double with the mantissa `m` at the exponent `k`, in normal
/// form: the mantissa has all its 53 bits, or the exponent is the least one.
pub open spec fn normal_form(n: int, m: nat, k: nat) -> bool {
    magnitude(n) == m * pow2(k) && 0 < m < pow2(53) && (k == 0 || pow2(52) <= m)
}

/// One of the doubles `a` and `b` is zero, or their exponents in normal
/// form add up to 1074 at least: what rounding takes from their product is
/// a whole number of least positive doubles.
pub open spec fn product_keeps_bits(a: int, b: int) -> bool {
    a == 0 || b == 0 || exists|ma: nat, ka: nat, mb: nat, kb: nat|
        #[trigger] normal_form(a, ma, ka) && #[trigger] normal_form(b, mb, kb) && ka + kb >= 1074
}

/// A positive whole number below `2^52` has a power of two that takes it
/// to a mantissa of all 53 bits.
proof fn lemma_scale_up(m: int) -> (j: nat)
    requires
        0 < m < pow2(52),
    ensures
        1 <= j <= 52,
        pow2(52) <= m * pow2(j) < pow2(53),
    decreases pow2(52) - m,
{
    lemma_small_powers();
    let j: nat = if 2 * m >= pow2(52) {
        1
    } else {
        let i = lemma_scale_up(2 * m);
        lemma_pow2_adds(1, i);
        assert(m * pow2(1 + i) == (2 * m) * pow2(i)) by (nonlinear_arith)
            requires
                pow2(1 + i) == 2 * pow2(i),
        ;
        1 + i
    };
    if j >= 53 {
        lemma_pow2_increases(53, j);
        assert(m * pow2(j) >= pow2(53)) by (nonlinear_arith)
            requires
                m >= 1,
                pow2(j) >= pow2(53),
        ;
    }
    j
}

/// A multiple of `2^e` with `e` from 1074 on, in range, is a whole number
/// of times `2^1074`, by a factor below `2^1024` in magnitude.
proof fn lemma_whole_units(v: int, w: int, e: nat) -> (q: int)
    requires
        v == w * pow2(e),
        e >= 1074,
        magnitude(v) < pow2(2098),
    ensures
        v == q * unit_scale(),
        magnitude(q) < pow2(1024),
        (v > 0) == (q > 0),
{
    let d = (e - 1074) as nat;
    let q = w * pow2(d);
    lemma_pow2_adds(d, 1074);
    lemma_pow2_adds(1024, 1074);
    lemma_pow2_pos(1074);
    assert(v == q * unit_scale()) by (nonlinear_arith)
        requires
            v == w * pow2(e),
            pow2(e) == pow2(d) * pow2(1074),
            q == w * pow2(d),
            unit_scale() == pow2(1074),
    ;
    assert(magnitude(q) < pow2(1024) && (v > 0) == (q > 0)) by (nonlinear_arith)
        requires
            v == q * unit_scale(),
            magnitude(v) < pow2(1024) * unit_scale(),
            unit_scale() > 0,
    ;
    q
}

/// The roundings of the product with an error term where an operand is
/// zero: every rounding gives zero.
proof fn lemma_two_prod_zero(
    a: int,
    b: int,
    p: int,
    halves: (int, int, int, int, int, int, int, int),
    products: (int, int, int, int),
    sums: (int, int, int, int),
)
    requires
        a == 0 || b == 0,
        nearest_product(a * b, p),
        nearest(split_multiplier() * a, halves.0),
        nearest(a - halves.0, halves.1),
        nearest(halves.1 + halves.0, halves.2),
        nearest(a - halves.2, halves.3),
        nearest(split_multiplier() * b, halves.4),
        nearest(b - halves.4, halves.5),
        nearest(halves.5 + halves.4, halves.6),
        nearest(b - halves.6, halves.7),
        nearest_product(halves.2 * halves.6, products.0),
        nearest_product(halves.2 * halves.7, products.1),
        nearest_product(halves.3 * halves.6, products.2),
        nearest_product(halves.3 * halves.7, products.3),
        nearest(products.0 - p, sums.0),
        nearest(sums.0 + products.1, sums.1),
        nearest(sums.1 + products.2, sums.2),
        nearest(sums.2 + products.3, sums.3),
    ensures
        (p + sums.3) * unit_scale() == a * b,
{
    let (ta, ua, ah, al, tb, ub, bh, bl) = halves;
    let (hh, hl, lh, ll) = products;
    let (s1, s2, s3, e) = sums;
    let k = unit_scale();
    lemma_zero_on_grid();
    assert(0 * k == 0);
    if a == 0 {
        assert(split_multiplier() * a == 0);
        lemma_nearest_of_grid(0, ta);
        lemma_nearest_of_grid(0, ua);
        lemma_nearest_of_grid(0, ah);
        lemma_nearest_of_grid(0, al);
    } else {
        assert(split_multiplier() * b == 0);
        lemma_nearest_of_grid(0, tb);
        lemma_nearest_of_grid(0, ub);
        lemma_nearest_of_grid(0, bh);
        lemma_nearest_of_grid(0, bl);
    }
    assert(a * b == 0 && ah * bh == 0 && ah * bl == 0 && al * bh == 0 && al * bl == 0)
        by (nonlinear_arith)
        requires
            (a == 0 && ah == 0 && al == 0) || (b == 0 && bh == 0 && bl == 0),
    ;
    lemma_product_scaled(0, p);
    lemma_nearest_of_grid(0, p);
    lemma_product_scaled(0, hh);
    lemma_nearest_of_grid(0, hh);
    lemma_product_scaled(0, hl);
    lemma_nearest_of_grid(0, hl);
    lemma_product_scaled(0, lh);
    lemma_nearest_of_grid(0, lh);
    lemma_product_scaled(0, ll);
    lemma_nearest_of_grid(0, ll);
    lemma_nearest_of_grid(0, s1);
    lemma_nearest_of_grid(0, s2);
    lemma_nearest_of_grid(0, s3);
    lemma_nearest_of_grid(0, e);
    assert((p + e) * k == 0);
}

/// A product of a whole number `x` of `2^88` at most in magnitude and a
/// whole number `y` of least positive doubles keeps its rounding when `x`
/// is taken `2^j` times.
proof fn lemma_scale_product(x: int, y: int, q: int, r: int, j: nat)
    requires
        nearest_product(x * y, r),
        y == q * unit_scale(),
        -0x10000000000000000000000 <= x <= 0x10000000000000000000000,
        magnitude(q) < pow2(1024),
        j <= 52,
    ensures
        nearest_product((x * pow2(j)) * y, r * pow2(j)),
        nearest_product(y * (x * pow2(j)), r * pow2(j)),
        magnitude(r) <= 2 * pow2(1112),
{
    let k = unit_scale();
    let f = pow2(j) as int;
    let n = x * q;
    lemma_small_powers();
    vstd::arithmetic::power2::lemma2_to64_rest();
    lemma_pow2_adds(44, 44);
    lemma_pow2_adds(88, 1024);
    lemma_pow2_increases(1112, 2043);
    lemma_pow2_adds(1, 2043);
    lemma_pow2_pos(2043);
    assert(x * y == n * k && (x * f) * y == (n * f) * k && y * (x * f) == (n * f) * k && magnitude(
        n,
    ) <= pow2(88) * pow2(1024)) by (nonlinear_arith)
        requires
            y == q * k,
            n == x * q,
            -pow2(88) <= x <= pow2(88),
            magnitude(q) < pow2(1024),
    ;
    lemma_product_scaled(n, r);
    lemma_nearest_bound(n, r);
    lemma_nearest_scaled(n, r, j);
    lemma_product_unscaled(n * f, r * f);
}

/// The roundings of a splitting and of the products of its halves, taken
/// `2^j` times. A positive `v` below `2^52` is split into the halves `vh`
/// and `vl`; `w`, `wh` and `wl` are whole numbers of least positive
/// doubles; the products of `v` and `w` and of the halves round to `p` and
/// to `products`.
proof fn lemma_scale_side(
    v: int,
    side: (int, int, int, int),
    w: (int, int, int),
    q: (int, int, int),
    p: int,
    products: (int, int, int, int),
    j: nat,
)
    requires
        0 < v < pow2(52),
        j <= 52,
        nearest(split_multiplier() * v, side.0),
        nearest(v - side.0, side.1),
        nearest(side.1 + side.0, side.2),
        nearest(v - side.2, side.3),
        w.0 == q.0 * unit_scale(),
        w.1 == q.1 * unit_scale(),
        w.2 == q.2 * unit_scale(),
        magnitude(q.0) < pow2(1024),
        magnitude(q.1) < pow2(1024),
        magnitude(q.2) < pow2(1024),
        nearest_product(v * w.0, p),
        nearest_product(side.2 * w.1, products.0),
        nearest_product(side.2 * w.2, products.1),
        nearest_product(side.3 * w.1, products.2),
        nearest_product(side.3 * w.2, products.3),
    ensures
        nearest(split_multiplier() * (v * pow2(j)), side.0 * pow2(j)),
        nearest(v * pow2(j) - side.0 * pow2(j), side.1 * pow2(j)),
        nearest(side.1 * pow2(j) + side.0 * pow2(j), side.2 * pow2(j)),
        nearest(v * pow2(j) - side.2 * pow2(j), side.3 * pow2(j)),
        nearest_product((v * pow2(j)) * w.0, p * pow2(j)),
        nearest_product((side.2 * pow2(j)) * w.1, products.0 * pow2(j)),
        nearest_product((side.2 * pow2(j)) * w.2, products.1 * pow2(j)),
        nearest_product((side.3 * pow2(j)) * w.1, products.2 * pow2(j)),
        nearest_product((side.3 * pow2(j)) * w.2, products.3 * pow2(j)),
        nearest_product(w.0 * (v * pow2(j)), p * pow2(j)),
        nearest_product(w.1 * (side.2 * pow2(j)), products.0 * pow2(j)),
        nearest_product(w.2 * (side.2 * pow2(j)), products.1 * pow2(j)),
        nearest_product(w.1 * (side.3 * pow2(j)), products.2 * pow2(j)),
        nearest_product(w.2 * (side.3 * pow2(j)), products.3 * pow2(j)),
        magnitude(p) <= 2 * pow2(1112),
        magnitude(products.0) <= 2 * pow2(1112),
        magnitude(products.1) <= 2 * pow2(1112),
        magnitude(products.2) <= 2 * pow2(1112),
        magnitude(products.3) <= 2 * pow2(1112),
        magnitude(side.2) <= 0x10000000000000000000000,
{
    let (t, u, hi, lo) = side;
    let c = split_multiplier();
    let f = pow2(j) as int;
    lemma_small_powers();
    vstd::arithmetic::power2::lemma2_to64_rest();
    lemma_pow2_adds(44, 44);
    lemma_pow2_increases(88, 2044);
    assert(0 < c * v < 0x100000000000000000000) by (nonlinear_arith)
        requires
            c == 134217729,
            0 < v < 0x10000000000000,
    ;
    lemma_nearest_bound(c * v, t);
    lemma_nearest_bound(v - t, u);
    lemma_nearest_bound(u + t, hi);
    lemma_nearest_bound(v - hi, lo);
    lemma_nearest_scaled(c * v, t, j);
    lemma_nearest_scaled(v - t, u, j);
    lemma_nearest_scaled(u + t, hi, j);
    lemma_nearest_scaled(v - hi, lo, j);
    assert((c * v) * f == c * (v * f) && (v - t) * f == v * f - t * f && (u + t) * f == u * f + t
        * f && (v - hi) * f == v * f - hi * f) by (nonlinear_arith);
    lemma_scale_product(v, w.0, q.0, p, j);
    lemma_scale_product(hi, w.1, q.1, products.0, j);
    lemma_scale_product(hi, w.2, q.2, products.1, j);
    lemma_scale_product(lo, w.1, q.1, products.2, j);
    lemma_scale_product(lo, w.2, q.2, products.3, j);
}

/// The four sums of the error term, taken `2^j` times.
proof fn lemma_scale_sums(
    p: int,
    products: (int, int, int, int),
    sums: (int, int, int, int),
    j: nat,
)
    requires
        j <= 52,
        magnitude(p) <= 2 * pow2(1112),
        magnitude(products.0) <= 2 * pow2(1112),
        magnitude(products.1) <= 2 * pow2(1112),
        magnitude(products.2) <= 2 * pow2(1112),
        magnitude(products.3) <= 2 * pow2(1112),
        nearest(products.0 - p, sums.0),
        nearest(sums.0 + products.1, sums.1),
        nearest(sums.1 + products.2, sums.2),
        nearest(sums.2 + products.3, sums.3),
    ensures
        nearest(products.0 * pow2(j) - p * pow2(j), sums.0 * pow2(j)),
        nearest(sums.0 * pow2(j) + products.1 * pow2(j), sums.1 * pow2(j)),
        nearest(sums.1 * pow2(j) + products.2 * pow2(j), sums.2 * pow2(j)),
        nearest(sums.2 * pow2(j) + products.3 * pow2(j), sums.3 * pow2(j)),
{
    let (hh, hl, lh, ll) = products;
    let (s1, s2, s3, e) = sums;
    let f = pow2(j) as int;
    lemma_small_powers();
    lemma2_to64();
    lemma_pow2_adds(6, 1112);
    lemma_pow2_pos(1112);
    lemma_pow2_increases(1118, 2044);
    lemma_nearest_bound(hh - p, s1);
    lemma_nearest_bound(s1 + hl, s2);
    lemma_nearest_bound(s2 + lh, s3);
    lemma_nearest_scaled(hh - p, s1, j);
    lemma_nearest_scaled(s1 + hl, s2, j);
    lemma_nearest_scaled(s2 + lh, s3, j);
    lemma_nearest_scaled(s3 + ll, e, j);
    assert((hh - p) * f == hh * f - p * f && (s1 + hl) * f == s1 * f + hl * f && (s2 + lh) * f
        == s2 * f + lh * f && (s3 + ll) * f == s3 * f + ll * f) by (nonlinear_arith);
}

/// The halves of a positive double at an exponent from 1074 on are whole
/// numbers of times `2^1074`, as the double is itself.
proof fn lemma_split_whole_units(b: int, t: int, u: int, hi: int, lo: int, m: nat, k: nat) -> (q: (
    int,
    int,
    int,
))
    requires
        on_grid(b),
        b == m * pow2(k),
        pow2(52) <= m < pow2(53),
        k >= 1074,
        split_multiplier() * b < pow2(2098),
        nearest(split_multiplier() * b, t),
        nearest(b - t, u),
        nearest(u + t, hi),
        nearest(b - hi, lo),
    ensures
        b == q.0 * unit_scale(),
        hi == q.1 * unit_scale(),
        lo == q.2 * unit_scale(),
        0 < q.0 < pow2(1024),
        magnitude(q.1) < pow2(1024),
        magnitude(q.2) < pow2(1024),
{
    lemma_small_powers();
    lemma_pow2_pos(k);
    assert(b > 0 && split_multiplier() * b > 0) by (nonlinear_arith)
        requires
            b == m * pow2(k),
            m > 0,
            pow2(k) > 0,
            split_multiplier() == 134217729,
    ;
    lemma_split(b, t, u, hi, lo);
    let (qh, ql) = lemma_split_normal(b, t, u, m, k);
    lemma_nearest_bound(u + t, hi);
    lemma_nearest_bound(b - hi, lo);
    let q0 = lemma_whole_units(b, m as int, k);
    let q1 = lemma_whole_units(hi, qh as int, 27 + k);
    let q2 = lemma_whole_units(lo, ql, k);
    (q0, q1, q2)
}

/// The roundings of the product with an error term, for two positive
/// doubles in normal form whose exponents add up to 1074 at least. Where a
/// mantissa is short, every rounding is, taken by the power of two that
/// fills it, a rounding of operands with full mantissas.
proof fn lemma_two_prod_any(
    a: int,
    b: int,
    ma: nat,
    ka: nat,
    mb: nat,
    kb: nat,
    p: int,
    halves: (int, int, int, int, int, int, int, int),
    products: (int, int, int, int),
    sums: (int, int, int, int),
)
    requires
        on_grid(a),
        on_grid(b),
        a == ma * pow2(ka),
        b == mb * pow2(kb),
        0 < ma < pow2(53),
        0 < mb < pow2(53),
        ka == 0 || pow2(52) <= ma,
        kb == 0 || pow2(52) <= mb,
        ka + kb >= 1074,
        a * b <= greatest() * unit_scale(),
        halves.2 * halves.6 < pow2(2098) * unit_scale(),
        split_multiplier() * a < pow2(2098),
        split_multiplier() * b < pow2(2098),
        nearest_product(a * b, p),
        nearest(split_multiplier() * a, halves.0),
        nearest(a - halves.0, halves.1),
        nearest(halves.1 + halves.0, halves.2),
        nearest(a - halves.2, halves.3),
        nearest(split_multiplier() * b, halves.4),
        nearest(b - halves.4, halves.5),
        nearest(halves.5 + halves.4, halves.6),
        nearest(b - halves.6, halves.7),
        nearest_product(halves.2 * halves.6, products.0),
        nearest_product(halves.2 * halves.7, products.1),
        nearest_product(halves.3 * halves.6, products.2),
        nearest_product(halves.3 * halves.7, products.3),
        nearest(products.0 - p, sums.0),
        nearest(sums.0 + products.1, sums.1),
        nearest(sums.1 + products.2, sums.2),
        nearest(sums.2 + products.3, sums.3),
    ensures
        (p + sums.3) * unit_scale() == a * b,
{
    let (ta, ua, ah, al, tb, ub, bh, bl) = halves;
    let (hh, hl, lh, ll) = products;
    let (s1, s2, s3, e) = sums;
    let c = split_multiplier();
    let k = unit_scale();
    lemma_small_powers();
    lemma_pow2_pos(1074);
    if ma >= pow2(52) && mb >= pow2(52) {
        lemma_two_prod_positive(a, b, ma, ka, mb, kb, p, halves, products, sums);
    } else {
        // the operand with the short mantissa is v
        let left = ma < pow2(52);
        let v = if left { a } else { b };
        assert(v == (if left { ma } else { mb })) by (nonlinear_arith)
            requires
                v == (if left { a } else { b }),
                a == ma * pow2(ka),
                b == mb * pow2(kb),
                left ==> pow2(ka) == 1,
                !left ==> pow2(kb) == 1,
        ;
        let j = lemma_scale_up(v);
        let f = pow2(j) as int;
        lemma_pow2_pos(j);
        vstd::arithmetic::power2::lemma2_to64_rest();
        lemma_pow2_adds(53, 1024);
        lemma_pow2_adds(44, 44);
        lemma_pow2_adds(52, 88);
        lemma_pow2_adds(140, 1024);
        lemma_pow2_increases(1077, 2097);
        lemma_pow2_increases(1164, 2098);
        lemma_pow2_increases(2045, 2097);
        lemma_pow2_increases(53, 1024);
        lemma_pow2_increases(53, 2098);
        lemma_pow2_increases(j, 52);
        lemma_pow2_adds(1, 2097);
        lemma_on_grid(v * f, (v * f) as nat, 0);
        assert(c * (v * f) < pow2(2098)) by (nonlinear_arith)
            requires
                c == 134217729,
                v * f < 0x20000000000000,
                pow2(2098) >= 2 * pow2(1077),
                pow2(1077) == 0x20000000000000 * pow2(1024),
                pow2(1024) >= 0x20000000000000,
        ;
        if left {
            let q = lemma_split_whole_units(b, tb, ub, bh, bl, mb, kb);
            lemma_scale_side(a, (ta, ua, ah, al), (b, bh, bl), q, p, products, j);
            lemma_scale_sums(p, products, sums, j);
            assert((a * f) * b <= greatest() * k && (ah * f) * bh < pow2(2098) * k)
                by (nonlinear_arith)
                requires
                    0 < a * f < pow2(53),
                    b == q.0 * k,
                    bh == q.1 * k,
                    0 < q.0 < pow2(1024),
                    magnitude(q.1) < pow2(1024),
                    magnitude(ah) <= pow2(88),
                    0 < f <= pow2(52),
                    pow2(1077) == pow2(53) * pow2(1024),
                    pow2(140) == pow2(52) * pow2(88),
                    pow2(1164) == pow2(140) * pow2(1024),
                    pow2(1077) <= greatest(),
                    pow2(1164) <= pow2(2098),
                    k > 0,
            ;
            lemma_two_prod_positive(
                a * f,
                b,
                (a * f) as nat,
                0,
                mb,
                kb,
                p * f,
                (ta * f, ua * f, ah * f, al * f, tb, ub, bh, bl),
                (hh * f, hl * f, lh * f, ll * f),
                (s1 * f, s2 * f, s3 * f, e * f),
            );
            assert((p + e) * k == a * b) by (nonlinear_arith)
                requires
                    (p * f + e * f) * k == (a * f) * b,
                    f > 0,
            ;
        } else {
            let q = lemma_split_whole_units(a, ta, ua, ah, al, ma, ka);
            assert(b * a == a * b && bh * ah == ah * bh && bh * al == al * bh && bl * ah == ah * bl
                && bl * al == al * bl) by (nonlinear_arith);
            lemma_scale_side(b, (tb, ub, bh, bl), (a, ah, al), q, p, (hh, lh, hl, ll), j);
            lemma_scale_sums(p, products, sums, j);
            assert(a * (b * f) <= greatest() * k && ah * (bh * f) < pow2(2098) * k)
                by (nonlinear_arith)
                requires
                    0 < b * f < pow2(53),
                    a == q.0 * k,
                    ah == q.1 * k,
                    0 < q.0 < pow2(1024),
                    magnitude(q.1) < pow2(1024),
                    magnitude(bh) <= pow2(88),
                    0 < f <= pow2(52),
                    pow2(1077) == pow2(53) * pow2(1024),
                    pow2(140) == pow2(52) * pow2(88),
                    pow2(1164) == pow2(140) * pow2(1024),
                    pow2(1077) <= greatest(),
                    pow2(1164) <= pow2(2098),
                    k > 0,
            ;
            lemma_two_prod_positive(
                a,
                b * f,
                ma,
                ka,
                (b * f) as nat,
                0,
                p * f,
                (ta, ua, ah, al, tb * f, ub * f, bh * f, bl * f),
                (hh * f, hl * f, lh * f, ll * f),
                (s1 * f, s2 * f, s3 * f, e * f),
            );
            assert((p + e) * k == a * b) by (nonlinear_arith)
                requires
                    (p * f + e * f) * k == a * (b * f),
                    f > 0,
            ;
        }
    }
}

/// The roundings of the product with an error term, for two doubles other
/// than zero in normal form whose exponents add up to 1074 at least: with
/// the signs taken off, they are those of two positive doubles.
proof fn lemma_two_prod_nonzero(
    a: int,
    b: int,
    ma: nat,
    ka: nat,
    mb: nat,
    kb: nat,
    p: int,
    halves: (int, int, int, int, int, int, int, int),
    products: (int, int, int, int),
    sums: (int, int, int, int),
)
    requires
        on_grid(a),
        on_grid(b),
        normal_form(a, ma, ka),
        normal_form(b, mb, kb),
        ka + kb >= 1074,
        magnitude(a * b) <= greatest() * unit_scale(),
        magnitude(halves.2 * halves.6) < pow2(2098) * unit_scale(),
        magnitude(split_multiplier() * a) < pow2(2098),
        magnitude(split_multiplier() * b) < pow2(2098),
        nearest_product(a * b, p),
        nearest(split_multiplier() * a, halves.0),
        nearest(a - halves.0, halves.1),
        nearest(halves.1 + halves.0, halves.2),
        nearest(a - halves.2, halves.3),
        nearest(split_multiplier() * b, halves.4),
        nearest(b - halves.4, halves.5),
        nearest(halves.5 + halves.4, halves.6),
        nearest(b - halves.6, halves.7),
        nearest_product(halves.2 * halves.6, products.0),
        nearest_product(halves.2 * halves.7, products.1),
        nearest_product(halves.3 * halves.6, products.2),
        nearest_product(halves.3 * halves.7, products.3),
        nearest(products.0 - p, sums.0),
        nearest(sums.0 + products.1, sums.1),
        nearest(sums.1 + products.2, sums.2),
        nearest(sums.2 + products.3, sums.3),
    ensures
        (p + sums.3) * unit_scale() == a * b,
{
    lemma_pow2_pos(ka);
    lemma_pow2_pos(kb);
    assert(a != 0 && b != 0) by (nonlinear_arith)
        requires
            magnitude(a) == ma * pow2(ka),
            magnitude(b) == mb * pow2(kb),
            ma > 0,
            mb > 0,
            pow2(ka) > 0,
            pow2(kb) > 0,
    ;
    let (ta, ua, ah, al, tb, ub, bh, bl) = halves;
    let (hh, hl, lh, ll) = products;
    let (s1, s2, s3, e) = sums;
    let c = split_multiplier();
    let k = unit_scale();
    lemma_small_powers();
    lemma_pow2_pos(ka);
    lemma_pow2_pos(kb);
    if a > 0 && b > 0 {
        assert(a * b >= 0) by (nonlinear_arith)
            requires
                a > 0,
                b > 0,
        ;
        lemma_two_prod_any(a, b, ma, ka, mb, kb, p, halves, products, sums);
    } else if a < 0 && b > 0 {
        lemma_on_grid_negated(a);
        lemma_nearest_negated(c * a, ta);
        lemma_nearest_negated(a - ta, ua);
        lemma_nearest_negated(ua + ta, ah);
        lemma_nearest_negated(a - ah, al);
        lemma_nearest_product_negated(a * b, p);
        lemma_nearest_product_negated(ah * bh, hh);
        lemma_nearest_product_negated(ah * bl, hl);
        lemma_nearest_product_negated(al * bh, lh);
        lemma_nearest_product_negated(al * bl, ll);
        lemma_nearest_negated(hh - p, s1);
        lemma_nearest_negated(s1 + hl, s2);
        lemma_nearest_negated(s2 + lh, s3);
        lemma_nearest_negated(s3 + ll, e);
        assert((-a) * b == -(a * b) && (-ah) * bh == -(ah * bh) && (-ah) * bl == -(ah * bl) && (
        -al) * bh == -(al * bh) && (-al) * bl == -(al * bl) && c * (-a) == -(c * a))
            by (nonlinear_arith);
        assert(a * b <= 0) by (nonlinear_arith)
            requires
                a < 0,
                b > 0,
        ;
        lemma_two_prod_any(
            -a,
            b,
            ma,
            ka,
            mb,
            kb,
            -p,
            (-ta, -ua, -ah, -al, tb, ub, bh, bl),
            (-hh, -hl, -lh, -ll),
            (-s1, -s2, -s3, -e),
        );
        assert((p + e) * k == a * b) by (nonlinear_arith)
            requires
                (-p + -e) * k == (-a) * b,
                (-a) * b == -(a * b),
        ;
    } else if a > 0 && b < 0 {
        lemma_on_grid_negated(b);
        lemma_nearest_negated(c * b, tb);
        lemma_nearest_negated(b - tb, ub);
        lemma_nearest_negated(ub + tb, bh);
        lemma_nearest_negated(b - bh, bl);
        lemma_nearest_product_negated(a * b, p);
        lemma_nearest_product_negated(ah * bh, hh);
        lemma_nearest_product_negated(ah * bl, hl);
        lemma_nearest_product_negated(al * bh, lh);
        lemma_nearest_product_negated(al * bl, ll);
        lemma_nearest_negated(hh - p, s1);
        lemma_nearest_negated(s1 + hl, s2);
        lemma_nearest_negated(s2 + lh, s3);
        lemma_nearest_negated(s3 + ll, e);
        assert(a * (-b) == -(a * b) && ah * (-bh) == -(ah * bh) && ah * (-bl) == -(ah * bl) && al
            * (-bh) == -(al * bh) && al * (-bl) == -(al * bl) && c * (-b) == -(c * b))
            by (nonlinear_arith);
        assert(a * b <= 0) by (nonlinear_arith)
            requires
                a > 0,
                b < 0,
        ;
        lemma_two_prod_any(
            a,
            -b,
            ma,
            ka,
            mb,
            kb,
            -p,
            (ta, ua, ah, al, -tb, -ub, -bh, -bl),
            (-hh, -hl, -lh, -ll),
            (-s1, -s2, -s3, -e),
        );
        assert((p + e) * k == a * b) by (nonlinear_arith)
            requires
                (-p + -e) * k == a * (-b),
                a * (-b) == -(a * b),
        ;
    } else {
        lemma_on_grid_negated(a);
        lemma_on_grid_negated(b);
        lemma_nearest_negated(c * a, ta);
        lemma_nearest_negated(a - ta, ua);
        lemma_nearest_negated(ua + ta, ah);
        lemma_nearest_negated(a - ah, al);
        lemma_nearest_negated(c * b, tb);
        lemma_nearest_negated(b - tb, ub);
        lemma_nearest_negated(ub + tb, bh);
        lemma_nearest_negated(b - bh, bl);
        assert((-a) * (-b) == a * b && (-ah) * (-bh) == ah * bh && (-ah) * (-bl) == ah * bl && (
        -al) * (-bh) == al * bh && (-al) * (-bl) == al * bl && c * (-a) == -(c * a) && c * (-b)
            == -(c * b)) by (nonlinear_arith);
        assert(a * b >= 0) by (nonlinear_arith)
            requires
                a < 0,
                b < 0,
        ;
        lemma_two_prod_any(
            -a,
            -b,
            ma,
            ka,
            mb,
            kb,
            p,
            (-ta, -ua, -ah, -al, -tb, -ub, -bh, -bl),
            products,
            sums,
        );
    }
}

/// The roundings of the product with an error term.
///
/// The exact product of `a` and `b` is in range and rounds to `p`. The
/// halves of `a` are `halves.2` and `halves.3`, those of `b` are
/// `halves.6` and `halves.7`, each with the two roundings before it. The
/// four products of the halves round to `products`; the difference of the
/// first and `p` rounds to `sums.0`, and adding the other three in turn
/// rounds to `sums.1`, `sums.2` and `sums.3`. Where one operand is zero, or
/// the exponents of the two in normal form add up to 1074 at least,
/// `sums.3` is what rounding took from the product.
pub proof fn lemma_two_prod(
    a: int,
    b: int,
    p: int,
    halves: (int, int, int, int, int, int, int, int),
    products: (int, int, int, int),
    sums: (int, int, int, int),
)
    requires
        on_grid(a),
        on_grid(b),
        product_keeps_bits(a, b),
        magnitude(a * b) <= greatest() * unit_scale(),
        magnitude(halves.2 * halves.6) < pow2(2098) * unit_scale(),
        magnitude(split_multiplier() * a) < pow2(2098),
        magnitude(split_multiplier() * b) < pow2(2098),
        nearest_product(a * b, p),
        nearest(split_multiplier() * a, halves.0),
        nearest(a - halves.0, halves.1),
        nearest(halves.1 + halves.0, halves.2),
        nearest(a - halves.2, halves.3),
        nearest(split_multiplier() * b, halves.4),
        nearest(b - halves.4, halves.5),
        nearest(halves.5 + halves.4, halves.6),
        nearest(b - halves.6, halves.7),
        nearest_product(halves.2 * halves.6, products.0),
        nearest_product(halves.2 * halves.7, products.1),
        nearest_product(halves.3 * halves.6, products.2),
        nearest_product(halves.3 * halves.7, products.3),
        nearest(products.0 - p, sums.0),
        nearest(sums.0 + products.1, sums.1),
        nearest(sums.1 + products.2, sums.2),
        nearest(sums.2 + products.3, sums.3),
    ensures
        (p + sums.3) * unit_scale() == a * b,
{
    if a == 0 || b == 0 {
        lemma_two_prod_zero(a, b, p, halves, products, sums);
    } else {
        let (ma, ka, mb, kb) = choose|ma: nat, ka: nat, mb: nat, kb: nat|
            #[trigger] normal_form(a, ma, ka) && #[trigger] normal_form(b, mb, kb) && ka + kb
                >= 1074;
        lemma_two_prod_nonzero(a, b, ma, ka, mb, kb, p, halves, products, sums);
    }
}

/// The two roundings of the product with an error term that a fused
/// multiply-add forms, for positive operands with mantissas of `2^52` at
/// least: the exact product, which is in range, rounds to `p`, and the
/// exact product less `p` rounds to `e`.
proof fn lemma_two_prod_fma_full(a: int, b: int, ma: nat, ka: nat, mb: nat, kb: nat, p: int, e: int)
    requires
        a == ma * pow2(ka),
        b == mb * pow2(kb),
        pow2(52) <= ma < pow2(53),
        pow2(52) <= mb < pow2(53),
        ka + kb >= 1074,
        a * b <= greatest() * unit_scale(),
        nearest_product(a * b, p),
        nearest_product(a * b - p * unit_scale(), e),
    ensures
        (p + e) * unit_scale() == a * b,
{
    lemma_small_powers();
    let k = unit_scale();
    let g = (ka + kb - 1074) as nat;
    let gg = pow2(g) as int;
    let pa = pow2(ka) as int;
    let pb = pow2(kb) as int;
    lemma_pow2_pos(1074);
    lemma_pow2_pos(g);
    lemma_pow2_pos(2045);
    lemma_pow2_adds(ka, kb);
    lemma_pow2_adds(1074, g);
    let nq = (ma * mb) as int;
    let nn = nq * gg;
    assert(a * b == nn * k) by {
        lemma_scaled_product(a, b, ma as int, mb as int, pa, pb, k, gg);
    }
    assert(0x100000000000000000000000000 <= nq < 0x400000000000000000000000000)
        by (nonlinear_arith)
        requires
            nq == ma * mb,
            0x10000000000000 <= ma < 0x20000000000000,
            0x10000000000000 <= mb < 0x20000000000000,
    ;
    lemma_product_scaled(nn, p);
    assert(nn <= greatest()) by (nonlinear_arith)
        requires
            nn * k <= greatest() * k,
            k > 0,
    ;
    let pp = lemma_product_rounded(nn, p, nq, g);
    let rq = nq - pp * 0x10000000000000;
    let r = nn - p;
    assert(r == (rq * 1) * gg && magnitude(r) <= nn) by (nonlinear_arith)
        requires
            r == nn - p,
            nn == nq * gg,
            p == (pp * 0x10000000000000) * gg,
            rq == nq - pp * 0x10000000000000,
            -0x10000000000000 <= rq <= 0x10000000000000,
            nq >= 0x100000000000000000000000000,
            gg > 0,
    ;
    lemma_multiple_on_grid(r, rq, 0, g, 1);
    assert(a * b - p * k == r * k) by (nonlinear_arith)
        requires
            a * b == nn * k,
            r == nn - p,
    ;
    lemma_product_scaled(r, e);
    lemma_nearest_of_grid(r, e);
    assert((p + e) * k == a * b) by (nonlinear_arith)
        requires
            a * b == nn * k,
            e == nn - p,
    ;
}

/// The same for a positive `a` below `2^52`, at the least exponent, and a
/// positive `b` with a mantissa of `2^52` at least at an exponent from
/// 1074 on: taken by the power of two that fills the mantissa of `a`, every
/// rounding is that of two operands with full mantissas.
proof fn lemma_two_prod_fma_short(a: int, b: int, mb: nat, kb: nat, p: int, e: int)
    requires
        0 < a < pow2(52),
        on_grid(b),
        b == mb * pow2(kb),
        pow2(52) <= mb < pow2(53),
        kb >= 1074,
        nearest_product(a * b, p),
        nearest_product(a * b - p * unit_scale(), e),
    ensures
        (p + e) * unit_scale() == a * b,
{
    lemma_small_powers();
    let k = unit_scale();
    lemma_pow2_pos(1074);
    lemma_pow2_pos(kb);
    let j = lemma_scale_up(a);
    let f = pow2(j) as int;
    lemma_pow2_pos(j);
    assert(b > 0) by (nonlinear_arith)
        requires
            b == mb * pow2(kb),
            mb > 0,
            pow2(kb) > 0,
    ;
    let q = lemma_whole_units(b, mb as int, kb);
    let n = a * q;
    lemma2_to64();
    lemma_pow2_adds(52, 1024);
    lemma_pow2_adds(53, 1024);
    lemma_pow2_adds(2, 1076);
    lemma_pow2_increases(1078, 2044);
    lemma_pow2_increases(1077, 2097);
    lemma_pow2_adds(1, 2097);
    lemma_pow2_increases(2045, 2097);
    assert(a * b == n * k && 0 <= n < pow2(1076) && (a * f) * b == (n * f) * k && 0 <= (a * f) * b
        < pow2(1077) * k) by (nonlinear_arith)
        requires
            b == q * k,
            n == a * q,
            0 < a < pow2(52),
            0 < q < pow2(1024),
            a * f < pow2(53),
            pow2(1076) == pow2(52) * pow2(1024),
            pow2(1077) == pow2(53) * pow2(1024),
            k > 0,
            f > 0,
    ;
    lemma_product_scaled(n, p);
    lemma_nearest_bound(n, p);
    assert(a * b - p * k == (n - p) * k && ((n - p) * f) * k == (a * f) * b - (p * f) * k)
        by (nonlinear_arith)
        requires
            a * b == n * k,
            (a * f) * b == (n * f) * k,
    ;
    lemma_product_scaled(n - p, e);
    lemma_nearest_scaled(n, p, j);
    lemma_nearest_scaled(n - p, e, j);
    lemma_product_unscaled(n * f, p * f);
    lemma_product_unscaled((n - p) * f, e * f);
    assert((a * f) * pow2(0) == a * f);
    assert((a * f) * b <= greatest() * k) by (nonlinear_arith)
        requires
            (a * f) * b < pow2(1077) * k,
            pow2(1077) <= greatest(),
            k > 0,
    ;
    lemma_two_prod_fma_full(a * f, b, (a * f) as nat, 0, mb, kb, p * f, e * f);
    assert((p + e) * k == a * b) by (nonlinear_arith)
        requires
            (p * f + e * f) * k == (a * f) * b,
            f > 0,
    ;
}

/// The two roundings of the product with an error term that a fused
/// multiply-add forms: the exact product of `a` and `b`, which is in
/// range, rounds to `p`, and the exact product less `p` rounds to `e`.
/// Where one operand is zero, or the exponents of the two in normal form
/// add up to 1074 at least, `e` is what rounding took from the product.
pub proof fn lemma_two_prod_fma(a: int, b: int, p: int, e: int)
    requires
        on_grid(a),
        on_grid(b),
        product_keeps_bits(a, b),
        magnitude(a * b) <= greatest() * unit_scale(),
        nearest_product(a * b, p),
        nearest_product(a * b - p * unit_scale(), e),
    ensures
        (p + e) * unit_scale() == a * b,
{
    let k = unit_scale();
    lemma_small_powers();
    if a == 0 || b == 0 {
        assert(a * b == 0 && 0 * k == 0) by (nonlinear_arith)
            requires
                a == 0 || b == 0,
        ;
        lemma_product_scaled(0, p);
        lemma_zero_on_grid();
        lemma_nearest_of_grid(0, p);
        assert(p * k == 0);
        lemma_product_scaled(0, e);
        lemma_nearest_of_grid(0, e);
        assert((p + e) * k == 0);
    } else {
        let (ma, ka, mb, kb) = choose|ma: nat, ka: nat, mb: nat, kb: nat|
            #[trigger] normal_form(a, ma, ka) && #[trigger] normal_form(b, mb, kb) && ka + kb
                >= 1074;
        let x = magnitude(a) as int;
        let y = magnitude(b) as int;
        if a < 0 {
            lemma_on_grid_negated(a);
        }
        if b < 0 {
            lemma_on_grid_negated(b);
        }
        let s: int = if (a > 0) == (b > 0) {
            1
        } else {
            -1
        };
        assert(x * y == s * (a * b) && x * y >= 0 && x * y == y * x && (s < 0 ==> x * y == -(a * b)))
            by (nonlinear_arith)
            requires
                (a > 0 && x == a) || (a < 0 && x == -a),
                (b > 0 && y == b) || (b < 0 && y == -b),
                s == (if (a > 0) == (b > 0) {
                    1int
                } else {
                    -1int
                }),
        ;
        if s < 0 {
            lemma_nearest_product_negated(a * b, p);
            lemma_nearest_product_negated(a * b - p * k, e);
            assert(-(a * b - p * k) == x * y - (-p) * k) by (nonlinear_arith)
                requires
                    x * y == -(a * b),
            ;
        }
        let pp = s * p;
        let ee = s * e;
        assert(nearest_product(x * y, pp));
        assert(nearest_product(x * y - pp * k, ee));
        if ma >= pow2(52) && mb >= pow2(52) {
            lemma_two_prod_fma_full(x, y, ma, ka, mb, kb, pp, ee);
        } else if ma < pow2(52) {
            assert(x == ma) by (nonlinear_arith)
                requires
                    x == ma * pow2(ka),
                    pow2(ka) == 1,
            ;
            lemma_two_prod_fma_short(x, y, mb, kb, pp, ee);
        } else {
            assert(y == mb) by (nonlinear_arith)
                requires
                    y == mb * pow2(kb),
                    pow2(kb) == 1,
            ;
            lemma_two_prod_fma_short(y, x, ma, ka, pp, ee);
        }
        assert((p + e) * k == a * b) by (nonlinear_arith)
            requires
                (pp + ee) * k == x * y,
                x * y == s * (a * b),
                pp == s * p,
                ee == s * e,
                s == 1 || s == -1,
        ;
    }
}

} // verus!
