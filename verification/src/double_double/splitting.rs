//! The halves of a split double are short.
//!
//! The high half of a finite double is a multiple of a power of two by a
//! factor of 26 bits at most, and the low half is no more than half that
//! power of two in magnitude.
use vstd::prelude::*;
use vstd::arithmetic::power2::{
    lemma2_to64, lemma_pow2_adds, lemma_pow2_pos, lemma_pow2_strictly_increases, pow2,
};
use crate::double_double::rounding::{
    lemma_divisible, lemma_nearest_is_nearest, lemma_nearest_negated, lemma_nearest_of_grid,
    lemma_normal_form, lemma_on_grid, lemma_on_grid_negated, lemma_pow2_on_grid, lemma_split,
    magnitude, nearest, on_grid, scaled, split_multiplier,
};

verus! {

/// The powers of two that the splitting counts with.
pub proof fn lemma_small_powers()
    ensures
        pow2(0) == 1,
        pow2(1) == 2,
        pow2(25) == 0x2000000,
        pow2(26) == 0x4000000,
        pow2(27) == 0x8000000,
        pow2(28) == 0x10000000,
        pow2(52) == 0x10000000000000,
        pow2(53) == 0x20000000000000,
{
    lemma2_to64();
    vstd::arithmetic::power2::lemma2_to64_rest();
}

/// A whole number from one on lies between two neighbouring powers of two.
proof fn lemma_log2(a: nat) -> (l: nat)
    requires
        a >= 1,
    ensures
        pow2(l) <= a < pow2(l + 1),
    decreases a,
{
    lemma_small_powers();
    if a < 2 {
        0
    } else {
        let l = lemma_log2(a / 2);
        lemma_pow2_adds(1, l);
        lemma_pow2_adds(1, l + 1);
        l + 1
    }
}

/// Powers of two grow with their exponents.
pub proof fn lemma_pow2_increases(e1: nat, e2: nat)
    requires
        e1 <= e2,
    ensures
        pow2(e1) <= pow2(e2),
{
    if e1 < e2 {
        lemma_pow2_strictly_increases(e1, e2);
    }
}

/// A number with a mantissa of `2^53` at most that stays in range is on
/// the grid.
pub proof fn lemma_on_grid_wide(n: int, q: nat, k: nat)
    requires
        q <= pow2(53),
        magnitude(n) == q * pow2(k),
        magnitude(n) < pow2(2098),
    ensures
        on_grid(n),
{
    lemma_small_powers();
    if q < pow2(53) {
        lemma_on_grid(n, q, k);
    } else {
        lemma_pow2_adds(1, k);
        assert(q * pow2(k) == pow2(52) * pow2(k + 1)) by (nonlinear_arith)
            requires
                q == 2 * pow2(52),
                pow2(k + 1) == 2 * pow2(k),
        ;
        lemma_on_grid(n, pow2(52), k + 1);
    }
}

/// What the first two roundings of the splitting of `a` leave: `t` is
/// between `a` times `2^27` and `a` times `2^27 + 2`, and `u` is no
/// farther than `a` from the difference of `a` and `t`.
proof fn lemma_split_basics(a: int, t: int, u: int)
    requires
        on_grid(a),
        a > 0,
        split_multiplier() * a < pow2(2098),
        nearest(split_multiplier() * a, t),
        nearest(a - t, u),
    ensures
        on_grid(t),
        on_grid(u),
        0x8000000 * a <= t <= 0x8000002 * a,
        magnitude(u - (a - t)) <= a,
        0 <= u + t <= 2 * a,
{
    lemma_small_powers();
    let c = split_multiplier();
    let (m, k) = lemma_normal_form(a);
    let x = 0x8000000 * a;
    lemma_pow2_adds(k, 27);
    assert(x == m * pow2(k + 27)) by (nonlinear_arith)
        requires
            x == 0x8000000 * a,
            a == m * pow2(k),
            pow2(k + 27) == pow2(k) * 0x8000000,
    ;
    lemma_on_grid(x, m, k + 27);
    lemma_nearest_is_nearest(c * a, t, x);
    lemma_on_grid_negated(t);
    lemma_nearest_is_nearest(a - t, u, -t);
}

/// In the splitting of `a`, which lies between `2^l` and `2^(l + 1)` with
/// `l` from 25 on, `t` is above `a` by `2^(l + 27)` at least.
proof fn lemma_split_gap(a: int, t: int, l: nat)
    requires
        on_grid(a),
        on_grid(t),
        l >= 25,
        pow2(l) <= a < pow2(l + 1),
        split_multiplier() * a < pow2(2098),
        nearest(split_multiplier() * a, t),
        0x8000000 * a <= t,
    ensures
        t - a >= pow2(l + 27),
{
    lemma_small_powers();
    let c = split_multiplier();
    let e = (l - 25) as nat;
    let gamma = pow2(e);
    lemma_pow2_pos(e);
    lemma_pow2_pos(l);
    lemma_pow2_adds(27, l);
    lemma_pow2_adds(28, l);
    lemma_pow2_adds(1, l);
    lemma_pow2_adds(25, e);
    lemma_pow2_adds(53, e);
    lemma_pow2_adds(52, e);
    assert(l + 27 == 52 + e);
    assert(l + 28 == 53 + e);
    assert(0x8000000 * a >= pow2(l + 27)) by (nonlinear_arith)
        requires
            a >= pow2(l),
            pow2(l + 27) == 0x8000000 * pow2(l),
    ;
    if a == pow2(l) {
        // the product is a point of the grid
        assert(c * a == 134_217_729 * pow2(l));
        lemma_on_grid(c * a, 134_217_729, l);
        lemma_nearest_of_grid(c * a, t);
    } else if c * a >= pow2(l + 28) {
        // t is no less than the power of two below the product
        if l + 28 < 2098 {
            lemma_pow2_on_grid(l + 28);
        } else {
            lemma_pow2_increases(2098, l + 28);
        }
        lemma_nearest_is_nearest(c * a, t, pow2(l + 28) as int);
        assert(t >= pow2(l + 28));
        assert(pow2(l + 28) == 2 * pow2(l + 27));
        assert(pow2(l + 1) <= pow2(l + 27)) by {
            lemma_pow2_increases(l + 1, l + 27);
        }
    } else {
        // t is less than one step below the product
        let f = (c * a) / (gamma as int);
        let lower = f * gamma;
        assert(lower <= c * a < lower + gamma && f >= 0) by (nonlinear_arith)
            requires
                f == (c * a) / (gamma as int),
                lower == f * gamma,
                gamma > 0,
                c * a >= 0,
        ;
        assert(f < pow2(53)) by (nonlinear_arith)
            requires
                f * gamma <= c * a,
                c * a < pow2(53) * gamma,
                gamma > 0,
        ;
        lemma_on_grid(lower, f as nat, e);
        lemma_nearest_is_nearest(c * a, t, lower);
        assert(t > c * a - gamma);
        // a is above the power of two by one step of its own at least
        assert(0x8000000 * a >= pow2(l + 27) + gamma) by {
            if e <= 27 {
                lemma_pow2_increases(e, 27);
                assert(0x8000000 * a >= pow2(l + 27) + 0x8000000) by (nonlinear_arith)
                    requires
                        a >= pow2(l) + 1,
                        pow2(l + 27) == 0x8000000 * pow2(l),
                ;
            } else {
                let j = (l - 52) as nat;
                lemma_pow2_adds(52, j);
                lemma_pow2_adds(27, j);
                lemma_pow2_pos(j);
                assert(27 + j == e);
                let q = lemma_divisible(a, j);
                assert(q >= pow2(52) + 1) by (nonlinear_arith)
                    requires
                        q * pow2(j) > pow2(52) * pow2(j),
                        pow2(j) > 0,
                ;
                assert(0x8000000 * a >= pow2(l + 27) + gamma) by (nonlinear_arith)
                    requires
                        a == q * pow2(j),
                        q >= pow2(52) + 1,
                        pow2(l) == pow2(52) * pow2(j),
                        pow2(l + 27) == 0x8000000 * pow2(l),
                        gamma == 0x8000000 * pow2(j),
                        pow2(j) > 0,
                ;
            }
        }
    }
}

/// In the splitting of `a`, which lies between `2^l` and `2^(l + 1)` with
/// `l` from 25 on, the sum of `u` and `t` is a multiple of `2^(l - 25)` by a
/// factor of `2^26` at most.
proof fn lemma_split_high(a: int, t: int, u: int, l: nat) -> (q: nat)
    requires
        on_grid(a),
        on_grid(t),
        on_grid(u),
        l >= 25,
        pow2(l) <= a < pow2(l + 1),
        nearest(a - t, u),
        0x8000000 * a <= t <= 0x8000002 * a,
        0 <= u + t,
        t - a >= pow2(l + 27),
    ensures
        u + t == q * pow2((l - 25) as nat),
        q <= pow2(26),
{
    lemma_small_powers();
    let e = (l - 25) as nat;
    let gamma = pow2(e);
    lemma_pow2_pos(e);
    lemma_pow2_adds(26, e);
    lemma_pow2_adds(25, e + 1);
    lemma_pow2_adds(1, e);
    lemma_pow2_adds(52, e);
    lemma_pow2_adds(53, e);
    lemma_pow2_adds(52, e + 1);
    assert(l + 27 == 52 + e && l + 1 == 26 + e && l + 1 == 25 + (e + 1) && 53 + e == 52 + (e + 1));
    let top = pow2(l + 1) as int;
    // t is in range, and so is every power of two below it
    assert(l + 27 < 2098) by {
        if l + 27 >= 2098 {
            lemma_pow2_increases(2098, l + 27);
        }
    }
    // u is 2^(l + 27) at least in magnitude
    lemma_pow2_on_grid(l + 27);
    lemma_on_grid_negated(pow2(l + 27) as int);
    lemma_nearest_is_nearest(a - t, u, -(pow2(l + 27) as int));
    assert(-u >= pow2(52 + e));
    let tq = lemma_divisible(t, e);
    let uq = lemma_divisible(u, e);
    let q = tq - uq;
    assert(u + t == q * gamma) by (nonlinear_arith)
        requires
            t == tq * gamma,
            -u == uq * gamma,
            q == tq - uq,
    ;
    // t less 2^(l + 1) is on the grid
    let y = t - top;
    assert(y > 0);
    if t < pow2(53 + e) {
        assert(tq < pow2(53)) by (nonlinear_arith)
            requires
                tq * gamma < pow2(53) * gamma,
                gamma > 0,
        ;
        assert(tq >= pow2(52)) by (nonlinear_arith)
            requires
                tq * gamma >= pow2(52) * gamma,
                gamma > 0,
        ;
        let yq = (tq - 0x4000000) as nat;
        assert(y == yq * gamma) by (nonlinear_arith)
            requires
                y == t - top,
                t == tq * gamma,
                top == 0x4000000 * gamma,
                yq == tq - 0x4000000,
        ;
        lemma_on_grid(y, yq, e);
    } else {
        let wide = pow2(e + 1);
        lemma_pow2_pos(e + 1);
        let t2 = lemma_divisible(t, e + 1);
        assert(t2 < 0x10000004000000) by (nonlinear_arith)
            requires
                t2 * wide <= 0x8000002 * a,
                a < 0x2000000 * wide,
                wide > 0,
        ;
        assert(t2 >= pow2(52)) by (nonlinear_arith)
            requires
                t2 * wide >= pow2(52) * wide,
                wide > 0,
        ;
        let yq = (t2 - 0x2000000) as nat;
        assert(y == yq * wide) by (nonlinear_arith)
            requires
                y == t - top,
                t == t2 * wide,
                top == 0x2000000 * wide,
                yq == t2 - 0x2000000,
        ;
        lemma_on_grid(y, yq, e + 1);
    }
    lemma_on_grid_negated(y);
    lemma_nearest_is_nearest(a - t, u, -y);
    assert(u + t <= top);
    assert(0 <= q <= 0x4000000) by (nonlinear_arith)
        requires
            0 <= q * gamma,
            q * gamma <= 0x4000000 * gamma,
            gamma > 0,
    ;
    q as nat
}

/// In the splitting of `a`, which lies between `2^l` and `2^(l + 1)` with
/// `l` from 25 on, `t` is above `a` by `2^(l + 28)` at most.
proof fn lemma_split_reach(a: int, t: int, l: nat)
    requires
        on_grid(a),
        on_grid(t),
        l >= 25,
        pow2(l) <= a < pow2(l + 1),
        split_multiplier() * a < pow2(2098),
        nearest(split_multiplier() * a, t),
    ensures
        t - a <= pow2(l + 28),
{
    lemma_small_powers();
    let c = split_multiplier();
    let e = (l - 25) as nat;
    let gamma = pow2(e);
    let w = pow2(l + 28) as int;
    lemma_pow2_pos(e);
    lemma_pow2_pos(e + 1);
    lemma_pow2_adds(53, e);
    lemma_pow2_adds(54, e);
    lemma_pow2_adds(26, e);
    lemma_pow2_adds(1, e);
    lemma_pow2_adds(52, e + 1);
    lemma_pow2_adds(53, e + 1);
    assert(l + 28 == 53 + e && l + 1 == 26 + e && 53 + e == 52 + (e + 1) && 54 + e == 53 + (e + 1));
    if t > w {
        assert(l + 28 < 2098) by {
            if l + 28 >= 2098 {
                lemma_pow2_increases(2098, l + 28);
            }
        }
        lemma_pow2_on_grid(l + 28);
        lemma_nearest_is_nearest(c * a, t, w);
        assert(c * a > w);
        // the neighbours of the product among the multiples of twice the step
        let wide = pow2(e + 1);
        let f = (c * a) / (wide as int);
        let lower = f * wide;
        let upper = lower + wide;
        assert(lower <= c * a < lower + wide && f >= 0) by (nonlinear_arith)
            requires
                f == (c * a) / (wide as int),
                lower == f * wide,
                wide > 0,
                c * a >= 0,
        ;
        assert(c * a < 0x10000002000000 * wide) by (nonlinear_arith)
            requires
                c == 134_217_729,
                a < 0x2000000 * wide,
                wide > 0,
        ;
        assert(f < 0x10000002000000) by (nonlinear_arith)
            requires
                f * wide <= c * a,
                c * a < 0x10000002000000 * wide,
                wide > 0,
        ;
        assert(upper == (f + 1) * wide) by (nonlinear_arith)
            requires
                upper == lower + wide,
                lower == f * wide,
        ;
        assert(upper < pow2(54 + e)) by (nonlinear_arith)
            requires
                upper == (f + 1) * wide,
                f + 1 < 0x20000000000000,
                pow2(54 + e) == 0x20000000000000 * wide,
                wide > 0,
        ;
        assert(pow2(54 + e) <= pow2(2098)) by {
            lemma_pow2_increases(54 + e, 2098);
        }
        lemma_on_grid(lower, f as nat, e + 1);
        lemma_on_grid(upper, (f + 1) as nat, e + 1);
        lemma_nearest_is_nearest(c * a, t, lower);
        lemma_nearest_is_nearest(c * a, t, upper);
        assert(t <= c * a + gamma);
        // a is below the power of two above it by one step of its own at least
        assert(0x8000000 * a + gamma <= w) by {
            if e <= 27 {
                lemma_pow2_increases(e, 27);
                assert(0x8000000 * a + 0x8000000 <= w) by (nonlinear_arith)
                    requires
                        a + 1 <= 0x4000000 * gamma,
                        w == 0x20000000000000 * gamma,
                ;
            } else {
                let j = (l - 52) as nat;
                lemma_pow2_adds(52, j);
                lemma_pow2_adds(53, j);
                lemma_pow2_adds(27, j);
                lemma_pow2_pos(j);
                assert(27 + j == e && l + 1 == 53 + j);
                let q = lemma_divisible(a, j);
                assert(q + 1 <= pow2(53)) by (nonlinear_arith)
                    requires
                        q * pow2(j) < pow2(53) * pow2(j),
                        pow2(j) > 0,
                ;
                assert(0x8000000 * a + gamma <= w) by (nonlinear_arith)
                    requires
                        a == q * pow2(j),
                        q + 1 <= 0x20000000000000,
                        gamma == 0x8000000 * pow2(j),
                        w == 0x20000000000000 * gamma,
                        pow2(j) > 0,
                ;
            }
        }
    }
}

/// In the splitting of `a`, which lies between `2^l` and `2^(l + 1)` with
/// `l` from 25 on, the sum of `u` and `t` is no farther from `a` than half
/// of `2^(l - 25)`.
proof fn lemma_split_low(a: int, t: int, u: int, l: nat)
    requires
        on_grid(a),
        on_grid(t),
        on_grid(u),
        l >= 25,
        pow2(l) <= a < pow2(l + 1),
        nearest(a - t, u),
        pow2(l + 27) <= t - a <= pow2(l + 28),
    ensures
        2 * magnitude(a - (u + t)) <= pow2((l - 25) as nat),
{
    lemma_small_powers();
    let e = (l - 25) as nat;
    let gamma = pow2(e);
    lemma_pow2_pos(e);
    lemma_pow2_adds(26, e);
    lemma_pow2_adds(52, e);
    lemma_pow2_adds(53, e);
    assert(l + 27 == 52 + e && l + 28 == 53 + e && l + 1 == 26 + e);
    let tq = lemma_divisible(t, e);
    // the neighbours of a among the multiples of the step
    let c1 = a / (gamma as int);
    let below = c1 * gamma;
    assert(below <= a < below + gamma && c1 >= 0) by (nonlinear_arith)
        requires
            c1 == a / (gamma as int),
            below == c1 * gamma,
            gamma > 0,
            a >= 0,
    ;
    let y1 = t - below;
    let y2 = t - below - gamma;
    let q1 = tq - c1;
    let q2 = tq - c1 - 1;
    assert(y1 == q1 * gamma && y2 == q2 * gamma) by (nonlinear_arith)
        requires
            t == tq * gamma,
            below == c1 * gamma,
            y1 == t - below,
            y2 == t - below - gamma,
            q1 == tq - c1,
            q2 == tq - c1 - 1,
    ;
    assert(0 < y2 && y1 < pow2(53) * gamma + gamma);
    let bound = pow2(53) * gamma + gamma;
    assert(0 <= q2 && q1 <= pow2(53)) by (nonlinear_arith)
        requires
            0 < q2 * gamma,
            q1 * gamma < bound,
            bound == pow2(53) * gamma + gamma,
            gamma > 0,
    ;
    lemma_on_grid_wide(y1, q1 as nat, e);
    lemma_on_grid_wide(y2, q2 as nat, e);
    lemma_on_grid_negated(y1);
    lemma_on_grid_negated(y2);
    lemma_nearest_is_nearest(a - t, u, -y1);
    lemma_nearest_is_nearest(a - t, u, -y2);
}

/// The high half of a positive finite double `a` is a multiple of a power
/// of two `2^e` by a factor of `2^26` at most, and the low half is no more
/// than half of `2^e` in magnitude. The power is `2^0`, or `a` lies
/// between `2^(e + 25)` and `2^(e + 26)`.
pub proof fn lemma_split_halves_positive(a: int, t: int, u: int) -> (r: (nat, nat))
    requires
        on_grid(a),
        a > 0,
        split_multiplier() * a < pow2(2098),
        nearest(split_multiplier() * a, t),
        nearest(a - t, u),
    ensures
        u + t == r.1 * pow2(r.0),
        r.1 <= pow2(26),
        2 * magnitude(a - (u + t)) <= pow2(r.0),
        a < pow2(r.0 + 26),
        r.0 > 0 ==> a >= pow2(r.0 + 25),
{
    lemma_small_powers();
    let c = split_multiplier();
    let l = lemma_log2(a as nat);
    if l < 25 {
        lemma_pow2_increases(l + 1, 25);
        lemma_pow2_strictly_increases(53, 2098);
        // nothing is rounded
        assert((c * a) * pow2(0) == c * a);
        lemma_on_grid(c * a, (c * a) as nat, 0);
        lemma_nearest_of_grid(c * a, t);
        assert((0x8000000 * a) * pow2(0) == 0x8000000 * a);
        lemma_on_grid(a - t, (0x8000000 * a) as nat, 0);
        lemma_nearest_of_grid(a - t, u);
        assert(a * pow2(0) == a);
        (0, a as nat)
    } else {
        let e = (l - 25) as nat;
        assert(l + 1 == e + 26 && l == e + 25);
        lemma_split_basics(a, t, u);
        lemma_split_gap(a, t, l);
        lemma_split_reach(a, t, l);
        let q = lemma_split_high(a, t, u, l);
        lemma_split_low(a, t, u, l);
        (e, q)
    }
}

/// `n` has a mantissa of `bits` bits at most: it is a multiple of a power
/// of two by a factor below `2^bits`.
pub open spec fn fits(n: int, bits: nat) -> bool {
    exists|m: nat, k: nat| m < pow2(bits) && magnitude(n) == #[trigger] scaled(m, k)
}

/// A multiple of a power of two by a factor of `2^bits` at most has a
/// mantissa of `bits` bits at most, for `bits` from one on.
pub proof fn lemma_fits(n: int, m: nat, k: nat, bits: nat)
    requires
        m <= pow2(bits),
        bits >= 1,
        magnitude(n) == m * pow2(k),
    ensures
        fits(n, bits),
{
    lemma_small_powers();
    if m < pow2(bits) {
        assert(magnitude(n) == scaled(m, k));
    } else {
        lemma_pow2_adds(bits, k);
        lemma_pow2_strictly_increases(0, bits);
        assert(1 * pow2(bits + k) == m * pow2(k));
        assert(magnitude(n) == scaled(1, bits + k));
    }
}

/// A number keeps its mantissa when its sign changes.
pub proof fn lemma_fits_negated(n: int, bits: nat)
    requires
        fits(n, bits),
    ensures
        fits(-n, bits),
{
    let (m, k) = choose|m: nat, k: nat| m < pow2(bits) && magnitude(n) == #[trigger] scaled(m, k);
    assert(magnitude(-n) == scaled(m, k));
}

/// The halves of a positive double `a` with the mantissa `m`, which is
/// `2^52` at least, at the exponent `k`: the high half is a multiple of
/// `2^(27 + k)` by a factor of `2^26` at most, and the low half is a
/// multiple of `2^k` by a factor of `2^26` at most in magnitude.
pub proof fn lemma_split_normal(a: int, t: int, u: int, m: nat, k: nat) -> (r: (nat, int))
    requires
        on_grid(a),
        a == m * pow2(k),
        pow2(52) <= m < pow2(53),
        split_multiplier() * a < pow2(2098),
        nearest(split_multiplier() * a, t),
        nearest(a - t, u),
    ensures
        u + t == r.0 * pow2(27 + k),
        r.0 <= pow2(26),
        a - (u + t) == r.1 * pow2(k),
        -pow2(26) <= r.1 <= pow2(26),
        m == r.0 * pow2(27) + r.1,
{
    lemma_small_powers();
    lemma_pow2_pos(k);
    lemma_pow2_adds(52, k);
    lemma_pow2_adds(53, k);
    assert(pow2(52 + k) <= a < pow2(53 + k)) by (nonlinear_arith)
        requires
            a == m * pow2(k),
            pow2(52) <= m < pow2(53),
            pow2(52 + k) == pow2(52) * pow2(k),
            pow2(53 + k) == pow2(53) * pow2(k),
            pow2(k) > 0,
    ;
    let (e, q) = lemma_split_halves_positive(a, t, u);
    // the exponent of the high half is 27 above that of a
    assert(e == 27 + k) by {
        if e + 26 <= 52 + k {
            lemma_pow2_increases(e + 26, 52 + k);
        }
        if e + 25 >= 53 + k {
            lemma_pow2_increases(53 + k, e + 25);
        }
    }
    lemma_pow2_adds(27, k);
    lemma_pow2_adds(26, k);
    lemma_pow2_adds(1, 26 + k);
    let l = m - q * pow2(27);
    assert(a - (u + t) == l * pow2(k)) by (nonlinear_arith)
        requires
            a == m * pow2(k),
            u + t == q * pow2(27 + k),
            pow2(27 + k) == pow2(27) * pow2(k),
            l == m - q * pow2(27),
    ;
    assert(-pow2(26) <= l <= pow2(26)) by (nonlinear_arith)
        requires
            a - (u + t) == l * pow2(k),
            2 * magnitude(a - (u + t)) <= pow2(27 + k),
            pow2(27 + k) == 2 * (pow2(26) * pow2(k)),
            pow2(k) > 0,
    ;
    (q, l)
}

/// The four roundings of the splitting of a positive `a` leave two halves
/// that add up to `a` and have mantissas of 26 bits at most.
proof fn lemma_split_halves_short(a: int, t: int, u: int, hi: int, lo: int)
    requires
        on_grid(a),
        a > 0,
        split_multiplier() * a < pow2(2098),
        nearest(split_multiplier() * a, t),
        nearest(a - t, u),
        nearest(u + t, hi),
        nearest(a - hi, lo),
    ensures
        hi + lo == a,
        fits(hi, 26),
        fits(lo, 26),
{
    lemma_small_powers();
    lemma_split(a, t, u, hi, lo);
    let (m, k) = lemma_normal_form(a);
    if m >= pow2(52) {
        let (q, l) = lemma_split_normal(a, t, u, m, k);
        lemma_fits(hi, q, 27 + k, 26);
        assert(magnitude(lo) == magnitude(l) * pow2(k)) by (nonlinear_arith)
            requires
                lo == l * pow2(k),
                pow2(k) >= 0,
        ;
        lemma_fits(lo, magnitude(l), k, 26);
    } else {
        let (e, q) = lemma_split_halves_positive(a, t, u);
        lemma_fits(hi, q, e, 26);
        lemma_pow2_pos(k);
        assert(m * pow2(k) == m) by (nonlinear_arith)
            requires
                pow2(k) == 1,
        ;
        // a is below 2^52, so the step of the high half is 2^27 at most
        assert(e <= 27) by {
            if e >= 28 {
                lemma_pow2_increases(53, e + 25);
            }
        }
        lemma_pow2_increases(e, 27);
        assert(magnitude(lo) * pow2(0) == magnitude(lo));
        lemma_fits(lo, magnitude(lo), 0, 26);
    }
}

/// The four roundings of the splitting of `a`: the product of `a` and the
/// multiplier, which stays in range, rounds to `t`, the difference of `a`
/// and `t` to `u`, the sum of `u` and `t` to `hi`, and the difference of
/// `a` and `hi` to `lo`. Then the two halves add up to `a`, and each has
/// a mantissa of 26 bits at most.
pub proof fn lemma_split_halves(a: int, t: int, u: int, hi: int, lo: int)
    requires
        on_grid(a),
        magnitude(split_multiplier() * a) < pow2(2098),
        nearest(split_multiplier() * a, t),
        nearest(a - t, u),
        nearest(u + t, hi),
        nearest(a - hi, lo),
    ensures
        hi + lo == a,
        fits(hi, 26),
        fits(lo, 26),
{
    if a > 0 {
        lemma_split_halves_short(a, t, u, hi, lo);
    } else if a == 0 {
        lemma_split(a, t, u, hi, lo);
        crate::double_double::rounding::lemma_zero_on_grid();
        lemma_nearest_of_grid(0, t);
        lemma_nearest_of_grid(0, u);
        lemma_small_powers();
        assert(0 * pow2(0) == 0);
        lemma_fits(0, 0, 0, 26);
    } else {
        lemma_on_grid_negated(a);
        lemma_nearest_negated(split_multiplier() * a, t);
        lemma_nearest_negated(a - t, u);
        lemma_nearest_negated(u + t, hi);
        lemma_nearest_negated(a - hi, lo);
        assert(-(split_multiplier() * a) == split_multiplier() * (-a));
        lemma_split_halves_short(-a, -t, -u, -hi, -lo);
        lemma_fits_negated(-hi, 26);
        lemma_fits_negated(-lo, 26);
    }
}

/// The four roundings of the splitting of a double `a` with a mantissa of
/// 26 bits at most: none of them rounds at all, the high half is `a` and
/// the low half is zero.
pub proof fn lemma_split_short(a: int, t: int, u: int, hi: int, lo: int)
    requires
        on_grid(a),
        fits(a, 26),
        magnitude(split_multiplier() * a) < pow2(2098),
        nearest(split_multiplier() * a, t),
        nearest(a - t, u),
        nearest(u + t, hi),
        nearest(a - hi, lo),
    ensures
        hi == a,
        lo == 0,
{
    lemma_small_powers();
    let c = split_multiplier();
    let (m, k) = choose|m: nat, k: nat| m < pow2(26) && magnitude(a) == #[trigger] scaled(m, k);
    lemma_pow2_pos(k);
    assert(magnitude(c * a) == (c * m) * pow2(k) && magnitude(a - c * a) == (0x8000000 * m) * pow2(
        k,
    ) && c * m < 0x20000000000000 && 0x8000000 * m < 0x20000000000000 && magnitude(a - c * a)
        <= magnitude(c * a)) by (nonlinear_arith)
        requires
            magnitude(a) == m * pow2(k),
            c == 134217729,
            m < 0x4000000,
            pow2(k) > 0,
    ;
    lemma_on_grid(c * a, (c * m) as nat, k);
    lemma_nearest_of_grid(c * a, t);
    lemma_on_grid(a - t, (0x8000000 * m) as nat, k);
    lemma_nearest_of_grid(a - t, u);
    lemma_nearest_of_grid(a, hi);
    crate::double_double::rounding::lemma_zero_on_grid();
    lemma_nearest_of_grid(0, lo);
}

} // verus!
