//! Finite doubles as whole numbers, and rounding to the nearest of them.
//!
//! Every finite number of the binary64 format is a whole multiple of the
//! least positive one, two to the power -1074. Counted in that unit the
//! finite doubles are the whole numbers `m * 2^k` with `m` below `2^53`
//! that stay below `2^2098` in magnitude: the grid. An operation rounds to
//! nearest where its result is a point of the grid that no other point
//! beats in distance to the exact result.
use vstd::prelude::*;
use vstd::arithmetic::power2::{
    lemma_pow2_adds, lemma_pow2_pos, lemma_pow2_strictly_increases, pow2,
};

verus! {

/// The distance of `n` from zero.
pub open spec fn magnitude(n: int) -> nat {
    if n < 0 {
        (-n) as nat
    } else {
        n as nat
    }
}

/// `m` times two to the power `k`.
pub open spec fn scaled(m: nat, k: nat) -> nat {
    m * pow2(k)
}

/// `n`, counted in units of the least positive double, is a finite double.
pub open spec fn on_grid(n: int) -> bool {
    &&& exists|m: nat, k: nat| m < pow2(53) && magnitude(n) == #[trigger] scaled(m, k)
    &&& magnitude(n) < pow2(2098)
}

/// `r` is a finite double, and no finite double is nearer to `n`.
#[verifier::opaque]
pub open spec fn nearest(n: int, r: int) -> bool {
    &&& on_grid(r)
    &&& forall|x: int| #[trigger] on_grid(x) ==> magnitude(r - n) <= magnitude(x - n)
}

/// A number with a mantissa below `2^53` that stays in range is on the grid.
pub proof fn lemma_on_grid(n: int, m: nat, k: nat)
    requires
        m < pow2(53),
        magnitude(n) == m * pow2(k),
        magnitude(n) < pow2(2098),
    ensures
        on_grid(n),
{
    assert(magnitude(n) == scaled(m, k));
}

/// The grid is symmetric about zero.
pub proof fn lemma_on_grid_negated(n: int)
    requires
        on_grid(n),
    ensures
        on_grid(-n),
{
    let (m, k) = choose|m: nat, k: nat| m < pow2(53) && magnitude(n) == #[trigger] scaled(m, k);
    lemma_on_grid(-n, m, k);
}

/// Rounding to nearest is symmetric about zero.
pub proof fn lemma_nearest_negated(n: int, r: int)
    requires
        nearest(n, r),
    ensures
        nearest(-n, -r),
{
    reveal(nearest);
    lemma_on_grid_negated(r);
    assert forall|x: int| #[trigger] on_grid(x) implies magnitude(-r - (-n)) <= magnitude(
        x - (-n),
    ) by {
        lemma_on_grid_negated(x);
        assert(magnitude(r - n) <= magnitude(-x - n));
    }
}

/// A point of the grid rounds to itself.
pub proof fn lemma_nearest_of_grid(n: int, r: int)
    requires
        nearest(n, r),
        on_grid(n),
    ensures
        r == n,
{
    reveal(nearest);
    assert(magnitude(r - n) <= magnitude(n - n));
}

/// What rounds to nearest is a finite double, and no finite double is
/// nearer to the exact number.
pub proof fn lemma_nearest_is_nearest(n: int, r: int, x: int)
    requires
        nearest(n, r),
        on_grid(x),
    ensures
        on_grid(r),
        magnitude(r - n) <= magnitude(x - n),
{
    reveal(nearest);
}

/// Zero is on the grid.
pub proof fn lemma_zero_on_grid()
    ensures
        on_grid(0),
{
    lemma_pow2_pos(53);
    lemma_pow2_pos(2098);
    assert(0 * pow2(0) == 0);
    lemma_on_grid(0, 0, 0);
}

/// Two to the power `e` is on the grid while it is in range.
pub proof fn lemma_pow2_on_grid(e: nat)
    requires
        e < 2098,
    ensures
        on_grid(pow2(e) as int),
{
    lemma_pow2_pos(e);
    lemma_pow2_strictly_increases(e, 2098);
    if e >= 52 {
        lemma_pow2_adds(52, (e - 52) as nat);
        lemma_pow2_strictly_increases(52, 53);
        lemma_on_grid(pow2(e) as int, pow2(52), (e - 52) as nat);
    } else {
        lemma_pow2_strictly_increases(e, 53);
        assert(pow2(0) == 1) by {
            vstd::arithmetic::power2::lemma2_to64();
        }
        assert(pow2(e) * pow2(0) == pow2(e));
        lemma_on_grid(pow2(e) as int, pow2(e), 0);
    }
}

/// A mantissa below `2^53` at the exponent `k` has an equal at an exponent
/// that is zero or at which the mantissa is `2^52` at least.
proof fn lemma_normalise(m: nat, k: nat) -> (r: (nat, nat))
    requires
        m < pow2(53),
        m > 0,
    ensures
        r.0 < pow2(53),
        r.0 * pow2(r.1) == m * pow2(k),
        r.1 == 0 || r.0 >= pow2(52),
        r.1 <= k,
    decreases k,
{
    if k == 0 || m >= pow2(52) {
        (m, k)
    } else {
        assert(pow2(53) == 2 * pow2(52)) by {
            lemma_pow2_adds(1, 52);
            vstd::arithmetic::power2::lemma2_to64();
        }
        assert(pow2(k) == 2 * pow2((k - 1) as nat)) by {
            lemma_pow2_adds(1, (k - 1) as nat);
            vstd::arithmetic::power2::lemma2_to64();
        }
        assert((2 * m) * pow2((k - 1) as nat) == m * (2 * pow2((k - 1) as nat)))
            by (nonlinear_arith);
        lemma_normalise(2 * m, (k - 1) as nat)
    }
}

/// A point of the grid other than zero has a mantissa and an exponent in
/// normal form: the exponent is zero, or the mantissa is `2^52` at least.
pub proof fn lemma_normal_form(n: int) -> (r: (nat, nat))
    requires
        on_grid(n),
        n != 0,
    ensures
        r.0 < pow2(53),
        magnitude(n) == r.0 * pow2(r.1),
        r.1 == 0 || r.0 >= pow2(52),
        r.0 > 0,
{
    let (m, k) = choose|m: nat, k: nat| m < pow2(53) && magnitude(n) == #[trigger] scaled(m, k);
    assert(m > 0) by {
        if m == 0 {
            assert(0 * pow2(k) == 0);
        }
    }
    let r = lemma_normalise(m, k);
    assert(r.0 > 0) by {
        if r.0 == 0 {
            assert(0 * pow2(r.1) == 0);
        }
    }
    r
}

/// A point of the grid that is `2^(52 + j)` at least in magnitude is a
/// multiple of `2^j`.
pub proof fn lemma_divisible(x: int, j: nat) -> (q: nat)
    requires
        on_grid(x),
        magnitude(x) >= pow2(52 + j),
    ensures
        magnitude(x) == q * pow2(j),
{
    let (m, k) = choose|m: nat, k: nat| m < pow2(53) && magnitude(x) == #[trigger] scaled(m, k);
    lemma_pow2_pos(k);
    lemma_pow2_pos(j);
    if k < j {
        lemma_pow2_adds(53, k);
        assert(m * pow2(k) < pow2(53) * pow2(k)) by (nonlinear_arith)
            requires
                m < pow2(53),
                pow2(k) > 0,
        ;
        if 53 + k < 52 + j {
            lemma_pow2_strictly_increases(53 + k, 52 + j);
        }
        assert(false);
    }
    let d = (k - j) as nat;
    lemma_pow2_adds(d, j);
    assert(m * pow2(k) == (m * pow2(d)) * pow2(j)) by (nonlinear_arith)
        requires
            pow2(k) == pow2(d) * pow2(j),
    ;
    m * pow2(d)
}

/// The exponent of a point of the grid in normal form leaves the point in
/// range.
pub proof fn lemma_exponent_in_range(n: int, m: nat, k: nat)
    requires
        on_grid(n),
        magnitude(n) == m * pow2(k),
        m >= pow2(52),
    ensures
        52 + k < 2098,
        magnitude(n) >= pow2(52 + k),
{
    lemma_pow2_adds(52, k);
    lemma_pow2_pos(k);
    assert(m * pow2(k) >= pow2(52) * pow2(k)) by (nonlinear_arith)
        requires
            m >= pow2(52),
            pow2(k) > 0,
    ;
    if 52 + k >= 2098 {
        if 52 + k > 2098 {
            lemma_pow2_strictly_increases(2098, 52 + k);
        }
        assert(false);
    }
}

/// Where `b` is no greater in magnitude than `a`, which is not negative,
/// and `s` is their sum rounded to nearest, `s` is not negative and a
/// multiple of the same power of two as `b` in normal form, and what
/// rounding took from the sum is on the grid.
proof fn lemma_rounding_error_on_grid(a: int, b: int, s: int)
    requires
        on_grid(a),
        on_grid(b),
        magnitude(b) <= a,
        nearest(a + b, s),
    ensures
        0 <= s,
        on_grid(a + b - s),
{
    reveal(nearest);
    let n = a + b;
    lemma_zero_on_grid();
    assert(magnitude(s - n) <= magnitude(0 - n));
    assert(magnitude(s - n) <= magnitude(a - n));
    if b == 0 {
        lemma_nearest_of_grid(n, s);
    } else {
        let (mb, kb) = lemma_normal_form(b);
        let g = pow2(kb);
        lemma_pow2_pos(kb);
        if kb == 0 {
            assert(g == 1) by {
                vstd::arithmetic::power2::lemma2_to64();
            }
            let d = magnitude(n - s);
            assert(mb * g == mb) by (nonlinear_arith)
                requires
                    g == 1,
            ;
            assert(d <= mb);
            assert(d * pow2(0) == d);
            lemma_on_grid(n - s, d, 0);
        } else {
            lemma_exponent_in_range(b, mb, kb);
            let qa = lemma_divisible(a, kb);
            let nq: int = if b >= 0 {
                (qa + mb) as int
            } else {
                qa - mb
            };
            assert(n == nq * g) by (nonlinear_arith)
                requires
                    n == a + b,
                    a == qa * g,
                    magnitude(b) == mb * g,
                    b >= 0 ==> nq == qa + mb,
                    b < 0 ==> nq == qa - mb,
            ;
            assert(nq >= 0) by (nonlinear_arith)
                requires
                    n == nq * g,
                    n >= 0,
                    g > 0,
            ;
            let qs: int;
            if s >= pow2(52 + kb) {
                qs = lemma_divisible(s, kb) as int;
            } else if nq < pow2(53) {
                lemma_pow2_adds(53, kb);
                assert(nq * g < pow2(53) * g) by (nonlinear_arith)
                    requires
                        nq < pow2(53),
                        g > 0,
                ;
                if 53 + kb < 2098 {
                    lemma_pow2_strictly_increases(53 + kb, 2098);
                }
                lemma_on_grid(n, nq as nat, kb);
                lemma_nearest_of_grid(n, s);
                qs = nq;
            } else {
                lemma_pow2_adds(53, kb);
                lemma_pow2_adds(1, 52 + kb);
                assert(pow2(1) == 2) by {
                    vstd::arithmetic::power2::lemma2_to64();
                }
                assert(nq * g >= pow2(53) * g) by (nonlinear_arith)
                    requires
                        nq >= pow2(53),
                        g > 0,
                ;
                let r = pow2(52 + kb) as int;
                lemma_pow2_on_grid(52 + kb);
                assert(magnitude(s - n) <= magnitude(r - n));
                assert(false);
                qs = 0;
            }
            assert(s == qs * g);
            let d = magnitude(nq - qs);
            assert(magnitude(n - s) == d * g) by (nonlinear_arith)
                requires
                    n == nq * g,
                    s == qs * g,
                    g > 0,
                    d == magnitude(nq - qs),
            ;
            assert(d <= mb) by (nonlinear_arith)
                requires
                    d * g <= mb * g,
                    g > 0,
            ;
            lemma_on_grid(n - s, d, kb);
        }
    }
}

/// Where `b` is no greater in magnitude than `a`, which is not negative,
/// and `s` is their sum rounded to nearest, the difference of `s` and `a`
/// is on the grid, and `s` is the exact sum or no less than `b` in
/// magnitude.
proof fn lemma_rounded_part_on_grid(a: int, b: int, s: int)
    requires
        on_grid(a),
        on_grid(b),
        magnitude(b) <= a,
        nearest(a + b, s),
    ensures
        on_grid(s - a),
        s == a + b || magnitude(s) >= magnitude(b),
{
    reveal(nearest);
    let n = a + b;
    lemma_rounding_error_on_grid(a, b, s);
    assert(magnitude(s - n) <= magnitude(a - n));
    if a == 0 {
        lemma_nearest_of_grid(n, s);
        lemma_zero_on_grid();
    } else {
        let (ma, ka) = lemma_normal_form(a);
        let h = pow2(ka);
        lemma_pow2_pos(ka);
        assert(pow2(0) == 1 && pow2(1) == 2) by {
            vstd::arithmetic::power2::lemma2_to64();
        }
        if ka > 0 {
            lemma_exponent_in_range(a, ma, ka);
        }
        if b >= 0 {
            // s lies between a and twice a
            let qs: nat = if ka == 0 {
                s as nat
            } else {
                lemma_divisible(s, ka)
            };
            assert(s <= 2 * a) by {
                if 2 * a < pow2(2098) {
                    lemma_pow2_adds(1, ka);
                    assert(2 * a == ma * pow2(1 + ka)) by (nonlinear_arith)
                        requires
                            a == ma * h,
                            pow2(1 + ka) == 2 * h,
                    ;
                    lemma_on_grid(2 * a, ma, 1 + ka);
                    assert(magnitude(s - n) <= magnitude(2 * a - n));
                }
            }
            let d = magnitude(qs - ma);
            assert(magnitude(s - a) == d * h) by (nonlinear_arith)
                requires
                    s == qs * h,
                    a == ma * h,
                    h > 0,
                    d == magnitude(qs - ma),
            ;
            assert(d <= ma) by (nonlinear_arith)
                requires
                    d * h <= ma * h,
                    h > 0,
            ;
            lemma_on_grid(s - a, d, ka);
        } else {
            if ka == 0 {
                // every whole number below a is on the grid
                assert(ma * h == ma) by (nonlinear_arith)
                    requires
                        h == 1,
                ;
                assert(n * pow2(0) == n);
                lemma_on_grid(n, n as nat, 0);
                lemma_nearest_of_grid(n, s);
            } else if 2 * magnitude(b) >= a {
                // the sum is no greater than b in magnitude: it is exact
                let (mb, kb) = lemma_normal_form(b);
                let g = pow2(kb);
                lemma_pow2_pos(kb);
                let qa: nat;
                if kb == 0 {
                    assert(g == 1) by {
                        vstd::arithmetic::power2::lemma2_to64();
                    }
                    qa = a as nat;
                } else {
                    lemma_exponent_in_range(b, mb, kb);
                    qa = lemma_divisible(a, kb);
                }
                let nq = qa - mb;
                assert(n == nq * g) by (nonlinear_arith)
                    requires
                        n == a + b,
                        a == qa * g,
                        -b == mb * g,
                        nq == qa - mb,
                ;
                assert(0 <= nq <= mb) by (nonlinear_arith)
                    requires
                        n == nq * g,
                        0 <= n,
                        n <= mb * g,
                        g > 0,
                ;
                lemma_on_grid(n, nq as nat, kb);
                lemma_nearest_of_grid(n, s);
            } else {
                // the sum is above half of a, and so is s
                let j = (ka - 1) as nat;
                lemma_pow2_adds(1, j);
                assert(pow2(1) == 2) by {
                    vstd::arithmetic::power2::lemma2_to64();
                }
                let half = ma * pow2(j);
                assert(a == 2 * half) by (nonlinear_arith)
                    requires
                        a == ma * h,
                        h == 2 * pow2(j),
                        half == ma * pow2(j),
                ;
                lemma_on_grid(half as int, ma, j);
                assert(magnitude(s - n) <= magnitude(half - n));
                assert(s >= half);
                lemma_pow2_adds(52, j);
                lemma_pow2_pos(j);
                assert(half >= pow2(52 + j)) by (nonlinear_arith)
                    requires
                        half == ma * pow2(j),
                        ma >= pow2(52),
                        pow2(52 + j) == pow2(52) * pow2(j),
                        pow2(j) > 0,
                ;
                let qs = lemma_divisible(s, j);
                let d = magnitude(2 * ma - qs);
                assert(magnitude(s - a) == d * pow2(j)) by (nonlinear_arith)
                    requires
                        s == qs * pow2(j),
                        a == 2 * (ma * pow2(j)),
                        pow2(j) > 0,
                        d == magnitude(2 * ma - qs),
                ;
                assert(d <= ma) by (nonlinear_arith)
                    requires
                        d * pow2(j) <= ma * pow2(j),
                        pow2(j) > 0,
                ;
                lemma_on_grid(s - a, d, j);
            }
        }
    }
}

/// What rounding to nearest takes from the sum of two finite doubles is a
/// finite double.
pub proof fn lemma_sum_error_on_grid(a: int, b: int, s: int)
    requires
        on_grid(a),
        on_grid(b),
        nearest(a + b, s),
    ensures
        on_grid(a + b - s),
{
    if magnitude(a) >= magnitude(b) {
        if a >= 0 {
            lemma_rounding_error_on_grid(a, b, s);
        } else {
            lemma_on_grid_negated(a);
            lemma_on_grid_negated(b);
            lemma_nearest_negated(a + b, s);
            lemma_rounding_error_on_grid(-a, -b, -s);
            lemma_on_grid_negated(-a + -b - -s);
        }
    } else {
        if b >= 0 {
            lemma_rounding_error_on_grid(b, a, s);
        } else {
            lemma_on_grid_negated(a);
            lemma_on_grid_negated(b);
            lemma_nearest_negated(a + b, s);
            lemma_rounding_error_on_grid(-b, -a, -s);
            lemma_on_grid_negated(-b + -a - -s);
        }
    }
}

/// Where `b` is no greater in magnitude than `a` and `s` is the sum of the
/// two finite doubles rounded to nearest, the difference of `s` and `a` is
/// a finite double, and `s` is the exact sum or no less than `b` in
/// magnitude.
pub proof fn lemma_sum_part_on_grid(a: int, b: int, s: int)
    requires
        on_grid(a),
        on_grid(b),
        magnitude(a) >= magnitude(b),
        nearest(a + b, s),
    ensures
        on_grid(s - a),
        s == a + b || magnitude(s) >= magnitude(b),
{
    if a >= 0 {
        lemma_rounded_part_on_grid(a, b, s);
    } else {
        lemma_on_grid_negated(a);
        lemma_on_grid_negated(b);
        lemma_nearest_negated(a + b, s);
        lemma_rounded_part_on_grid(-a, -b, -s);
        lemma_on_grid_negated(-s - -a);
    }
}

/// The three roundings of the sum with an error term, for operands in
/// order of magnitude: the sum of `a` and `b` rounds to `s`, the
/// difference of `s` and `a` to `z`, and the difference of `b` and `z` to
/// `e`. Then neither difference is rounded at all, and `e` is what
/// rounding took from the sum.
pub proof fn lemma_quick_two_sum(a: int, b: int, s: int, z: int, e: int)
    requires
        on_grid(a),
        on_grid(b),
        magnitude(a) >= magnitude(b),
        nearest(a + b, s),
        nearest(s - a, z),
        nearest(b - z, e),
    ensures
        z == s - a,
        e == a + b - s,
{
    lemma_sum_part_on_grid(a, b, s);
    lemma_nearest_of_grid(s - a, z);
    lemma_sum_error_on_grid(a, b, s);
    lemma_nearest_of_grid(b - z, e);
}

/// The six roundings of the sum with an error term, for operands in any
/// order: the sum of `a` and `b` rounds to `s`, the difference of `s` and
/// `a` to `v`, the difference of `s` and `v` to `w`, the difference of `a`
/// and `w` to `x`, the difference of `b` and `v` to `y`, and the sum of `x`
/// and `y` to `e`. Then `e` is what rounding took from the sum.
pub proof fn lemma_two_sum(a: int, b: int, s: int, v: int, w: int, x: int, y: int, e: int)
    requires
        on_grid(a),
        on_grid(b),
        nearest(a + b, s),
        nearest(s - a, v),
        nearest(s - v, w),
        nearest(a - w, x),
        nearest(b - v, y),
        nearest(x + y, e),
    ensures
        e == a + b - s,
{
    let d = a + b - s;
    lemma_sum_error_on_grid(a, b, s);
    lemma_on_grid_negated(a);
    lemma_on_grid_negated(d);
    lemma_nearest_is_nearest(a + b, s, a);
    // the difference of s and v is not rounded
    assert(on_grid(s - v)) by {
        if magnitude(a) >= magnitude(b) {
            lemma_sum_part_on_grid(a, b, s);
            lemma_nearest_of_grid(s - a, v);
        } else {
            lemma_sum_part_on_grid(b, a, s);
            if s == a + b {
                lemma_nearest_of_grid(s - a, v);
            } else {
                lemma_sum_part_on_grid(s, -a, v);
                lemma_on_grid_negated(v - s);
            }
        }
    }
    lemma_nearest_of_grid(s - v, w);
    // nor is the difference of a and w
    lemma_sum_error_on_grid(s, -a, v);
    lemma_on_grid_negated(s + -a - v);
    lemma_nearest_of_grid(a - w, x);
    // nor is the difference of b and v
    lemma_sum_part_on_grid(b, -d, v);
    lemma_on_grid_negated(v - b);
    lemma_nearest_of_grid(b - v, y);
    lemma_nearest_of_grid(x + y, e);
}

/// The factor of the splitting: two to the power 27, plus one.
pub open spec fn split_multiplier() -> int {
    134_217_729
}

/// The four roundings of the splitting of `a`, which is not negative: the
/// product of `a` and the multiplier rounds to `t`, the difference of `a`
/// and `t` to `u`, the sum of `u` and `t` to `hi`, and the difference of
/// `a` and `hi` to `lo`. Then the last two are not rounded at all.
proof fn lemma_split_nonneg(a: int, t: int, u: int, hi: int, lo: int)
    requires
        on_grid(a),
        a >= 0,
        split_multiplier() * a < pow2(2098),
        nearest(split_multiplier() * a, t),
        nearest(a - t, u),
        nearest(u + t, hi),
        nearest(a - hi, lo),
    ensures
        hi == u + t,
        lo == a - hi,
{
    assert(pow2(0) == 1 && pow2(1) == 2 && pow2(26) == 0x4000000 && pow2(27) == 0x8000000
        && pow2(28) == 0x10000000) by {
        vstd::arithmetic::power2::lemma2_to64();
    }
    if a == 0 {
        lemma_zero_on_grid();
        lemma_nearest_of_grid(0, t);
        lemma_nearest_of_grid(0, u);
        lemma_nearest_of_grid(0, hi);
        lemma_nearest_of_grid(0, lo);
    } else {
        let c = split_multiplier();
        let (ma, ka) = lemma_normal_form(a);
        lemma_pow2_pos(ka);
        // two to the power 27 times a is on the grid, at the distance a from the product
        let x = 0x8000000 * a;
        lemma_pow2_adds(ka, 27);
        assert(x == ma * pow2(ka + 27)) by (nonlinear_arith)
            requires
                x == 0x8000000 * a,
                a == ma * pow2(ka),
                pow2(ka + 27) == pow2(ka) * 0x8000000,
        ;
        lemma_on_grid(x, ma, ka + 27);
        lemma_nearest_is_nearest(c * a, t, x);
        assert(t >= 0x8000000 * a);
        // the difference of a and t is rounded by a at most
        lemma_on_grid_negated(t);
        lemma_nearest_is_nearest(a - t, u, -t);
        assert(0 <= u + t <= 2 * a);
        assert(-u >= 0x4000000 * a);
        // so the sum of u and t is on the grid
        if ma >= pow2(52) {
            let j = 26 + ka;
            lemma_exponent_in_range(a, ma, ka);
            lemma_pow2_adds(26, 52 + ka);
            lemma_pow2_adds(1, 52 + ka);
            lemma_pow2_adds(28, j);
            lemma_pow2_adds(26, ka);
            lemma_pow2_adds(52, ka);
            lemma_pow2_adds(52, j);
            assert(52 + j == 26 + (52 + ka));
            assert(0x4000000 * a >= pow2(52 + j)) by (nonlinear_arith)
                requires
                    a >= pow2(52 + ka),
                    pow2(52 + j) == 0x4000000 * pow2(52 + ka),
            ;
            let qt = lemma_divisible(t, j);
            let qu = lemma_divisible(u, j);
            lemma_pow2_pos(j);
            let q = qt - qu;
            assert(u + t == q * pow2(j)) by (nonlinear_arith)
                requires
                    t == qt * pow2(j),
                    -u == qu * pow2(j),
                    q == qt - qu,
            ;
            assert(a < pow2(53 + ka)) by {
                lemma_pow2_adds(53, ka);
                assert(ma * pow2(ka) < pow2(53) * pow2(ka)) by (nonlinear_arith)
                    requires
                        ma < pow2(53),
                        pow2(ka) > 0,
                ;
            }
            lemma_pow2_adds(1, 53 + ka);
            assert(1 + (53 + ka) == 28 + j);
            assert(0 <= q < pow2(28)) by (nonlinear_arith)
                requires
                    0 <= q * pow2(j),
                    q * pow2(j) < pow2(28) * pow2(j),
                    pow2(j) > 0,
            ;
            lemma_pow2_strictly_increases(28, 53);
            lemma_on_grid(u + t, q as nat, j);
        } else {
            assert(ma * pow2(ka) == ma) by (nonlinear_arith)
                requires
                    pow2(ka) == 1,
            ;
            assert(pow2(53) == 2 * pow2(52)) by {
                lemma_pow2_adds(1, 52);
            }
            assert((u + t) * pow2(0) == u + t);
            lemma_on_grid(u + t, (u + t) as nat, 0);
        }
        lemma_nearest_of_grid(u + t, hi);
        lemma_sum_error_on_grid(a, -t, u);
        lemma_nearest_of_grid(a - hi, lo);
    }
}

/// The four roundings of the splitting of `a`: the product of `a` and the
/// multiplier, which stays in range, rounds to `t`, the difference of `a`
/// and `t` to `u`, the sum of `u` and `t` to `hi`, and the difference of
/// `a` and `hi` to `lo`. Then the last two are not rounded at all, so the
/// two halves add up to `a`.
pub proof fn lemma_split(a: int, t: int, u: int, hi: int, lo: int)
    requires
        on_grid(a),
        magnitude(split_multiplier() * a) < pow2(2098),
        nearest(split_multiplier() * a, t),
        nearest(a - t, u),
        nearest(u + t, hi),
        nearest(a - hi, lo),
    ensures
        hi == u + t,
        lo == a - hi,
{
    if a >= 0 {
        lemma_split_nonneg(a, t, u, hi, lo);
    } else {
        lemma_on_grid_negated(a);
        lemma_nearest_negated(split_multiplier() * a, t);
        lemma_nearest_negated(a - t, u);
        lemma_nearest_negated(u + t, hi);
        lemma_nearest_negated(a - hi, lo);
        assert(-(split_multiplier() * a) == split_multiplier() * (-a));
        lemma_split_nonneg(-a, -t, -u, -hi, -lo);
    }
}

} // verus!
