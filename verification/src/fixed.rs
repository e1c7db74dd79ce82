//! Fixed-point scalars in micro-units.
//!
//! A scalar `v` stands for the real number `v / UNIT`. All arithmetic in the
//! crate keeps numerators non-negative before dividing, so executable
//! (truncating) division and the mathematical (floor) division of
//! specifications agree everywhere.

use vstd::arithmetic::div_mod::{
    lemma_div_is_ordered, lemma_div_multiples_vanish, lemma_div_pos_is_pos,
};
use vstd::arithmetic::mul::{lemma_mul_inequality, lemma_mul_upper_bound};
use vstd::prelude::*;

verus! {

/// One whole unit: the fixed-point representation of the real value `1.0`.
pub const UNIT: i64 = 1_000_000;

/// Half a unit, the fixed-point representation of `0.5`.
pub const HALF_UNIT: i64 = 500_000;

/// Dividing a numerator of at most `cap * den` by the positive divisor `den`
/// gives a quotient of at most `cap`; stated once here for reuse.
pub proof fn lemma_div_le(num: int, cap: int, den: int)
    requires
        den > 0,
        0 <= num <= cap * den,
    ensures
        0 <= num / den <= cap,
{
    lemma_div_pos_is_pos(num, den);
    lemma_div_is_ordered(num, cap * den, den);
    assert(cap * den == den * cap) by (nonlinear_arith);
    lemma_div_multiples_vanish(cap, den);
}

/// Scales `a` by the unit fraction `b`: the floor of `a * b / UNIT`.
pub open spec fn mul_unit_spec(a: int, b: int) -> int {
    (a * b) / (UNIT as int)
}

/// Bounds of [`mul_unit_spec`]: scaling by a fraction of at most one unit
/// shrinks a non-negative scalar.
pub proof fn lemma_mul_unit_bounds(a: int, b: int)
    requires
        0 <= a <= 2_000_000_000,
        0 <= b <= 2_000_000_000,
    ensures
        0 <= mul_unit_spec(a, b),
        b <= UNIT ==> mul_unit_spec(a, b) <= a,
        a <= UNIT ==> mul_unit_spec(a, b) <= b,
        b == UNIT ==> mul_unit_spec(a, b) == a,
        a == UNIT ==> mul_unit_spec(a, b) == b,
        a == 0 || b == 0 ==> mul_unit_spec(a, b) == 0,
{
    let u = UNIT as int;
    lemma_mul_inequality(0, a, b);
    lemma_div_pos_is_pos(a * b, u);
    if b <= u {
        lemma_mul_upper_bound(a, a, b, u);
        lemma_div_le(a * b, a, u);
    }
    if a <= u {
        assert(a * b <= b * u) by (nonlinear_arith)
            requires
                0 <= a <= u,
                0 <= b,
        ;
        lemma_div_le(a * b, b, u);
    }
    if b == u {
        assert(a * b == u * a) by (nonlinear_arith)
            requires
                b == u,
        ;
        lemma_div_multiples_vanish(a, u);
    }
    if a == u {
        assert(a * b == u * b) by (nonlinear_arith)
            requires
                a == u,
        ;
        lemma_div_multiples_vanish(b, u);
    }
    if a == 0 || b == 0 {
        assert(a * b == 0) by (nonlinear_arith)
            requires
                a == 0 || b == 0,
        ;
    }
}

/// Scales `a` by the unit fraction `b`, rounding toward zero.
pub fn mul_unit(a: i64, b: i64) -> (r: i64)
    requires
        0 <= a <= 2_000_000_000,
        0 <= b <= 2_000_000_000,
    ensures
        r == mul_unit_spec(a as int, b as int),
        0 <= r,
        b <= UNIT ==> r <= a,
        a <= UNIT ==> r <= b,
{
    proof {
        lemma_mul_upper_bound(a as int, 2_000_000_000, b as int, 2_000_000_000);
        lemma_mul_unit_bounds(a as int, b as int);
    }
    (a * b) / UNIT
}

/// Scales the non-negative `a` by the possibly negative unit fraction `b`,
/// rounding toward zero (the magnitude is divided, then the sign restored).
pub open spec fn scale_signed_spec(a: int, b: int) -> int {
    if b >= 0 {
        (a * b) / (UNIT as int)
    } else {
        -((a * (-b)) / (UNIT as int))
    }
}

/// Bounds of [`scale_signed_spec`]: the result keeps the magnitude of `a` and
/// vanishes when either factor does; a full-unit factor is exact.
pub proof fn lemma_scale_signed_bounds(a: int, b: int)
    requires
        0 <= a <= UNIT,
        -UNIT <= b <= UNIT,
    ensures
        -a <= scale_signed_spec(a, b) <= a,
        a == 0 || b == 0 ==> scale_signed_spec(a, b) == 0,
        b == UNIT ==> scale_signed_spec(a, b) == a,
        b == -UNIT ==> scale_signed_spec(a, b) == -a,
{
    if b >= 0 {
        lemma_mul_unit_bounds(a, b);
    } else {
        lemma_mul_unit_bounds(a, -b);
    }
}

/// Rescaled, a signed scaling sits within one unit of the exact product:
/// the division's rounding is the only loss.
pub proof fn lemma_scale_signed_err(a: int, b: int)
    requires
        0 <= a <= UNIT,
        -UNIT <= b <= UNIT,
    ensures
        a * b - UNIT < (UNIT as int) * scale_signed_spec(a, b) <= a * b + UNIT,
{
    let u = UNIT as int;
    if b >= 0 {
        let q = (a * b) / u;
        lemma_mul_inequality(0, a, b);
        vstd::arithmetic::div_mod::lemma_fundamental_div_mod(a * b, u);
        vstd::arithmetic::div_mod::lemma_mod_bound(a * b, u);
        assert(a * b - u < u * q <= a * b + u);
    } else {
        let q = (a * (-b)) / u;
        assert(a * (-b) >= 0) by (nonlinear_arith)
            requires
                a >= 0,
                b <= 0,
        ;
        vstd::arithmetic::div_mod::lemma_fundamental_div_mod(a * (-b), u);
        vstd::arithmetic::div_mod::lemma_mod_bound(a * (-b), u);
        assert(a * (-b) == -(a * b)) by (nonlinear_arith);
        assert(u * (-q) <= a * b + u && a * b - u < u * (-q)) by (nonlinear_arith)
            requires
                a * (-b) == u * q + (a * (-b)) % u,
                0 <= (a * (-b)) % u < u,
                a * (-b) == -(a * b),
        ;
        assert(u * scale_signed_spec(a, b) == u * (-q)) by (nonlinear_arith)
            requires
                scale_signed_spec(a, b) == -q,
        ;
    }
}

/// Scales the non-negative `a` by the signed unit fraction `b`.
pub fn scale_signed(a: i64, b: i64) -> (r: i64)
    requires
        0 <= a <= UNIT,
        -UNIT <= b <= UNIT,
    ensures
        r == scale_signed_spec(a as int, b as int),
        -a <= r <= a,
{
    proof {
        lemma_scale_signed_bounds(a as int, b as int);
    }
    if b >= 0 {
        mul_unit(a, b)
    } else {
        let m = mul_unit(a, -b);
        -m
    }
}

/// Linear interpolation from `a` toward `b` by the unit fraction `t`:
/// the floor of `((UNIT - t) * a + t * b) / UNIT`.
pub open spec fn lerp_spec(a: int, b: int, t: int) -> int {
    (((UNIT as int) - t) * a + t * b) / (UNIT as int)
}

/// Bounds of [`lerp_spec`]: the interpolant stays between its endpoints and
/// meets them exactly at `t = 0` and `t = UNIT`.
pub proof fn lemma_lerp_bounds(a: int, b: int, t: int)
    requires
        0 <= a <= UNIT,
        0 <= b <= UNIT,
        0 <= t <= UNIT,
    ensures
        0 <= lerp_spec(a, b, t) <= UNIT,
        lerp_spec(a, b, t) <= a || lerp_spec(a, b, t) <= b,
        t == 0 ==> lerp_spec(a, b, t) == a,
        t == UNIT ==> lerp_spec(a, b, t) == b,
{
    let u = UNIT as int;
    assert((u - t) * a >= 0) by (nonlinear_arith)
        requires
            t <= u,
            0 <= a,
    ;
    assert(t * b >= 0) by (nonlinear_arith)
        requires
            0 <= t,
            0 <= b,
    ;
    let m = if a <= b {
        b
    } else {
        a
    };
    assert((u - t) * a + t * b <= (u - t) * m + t * m == u * m) by (nonlinear_arith)
        requires
            0 <= t <= u,
            0 <= a <= m,
            0 <= b <= m,
    ;
    lemma_div_le((u - t) * a + t * b, m, u);
    if t == 0 {
        assert((u - 0) * a + 0 * b == u * a) by (nonlinear_arith);
        lemma_div_multiples_vanish(a, u);
    }
    if t == UNIT {
        assert((u - u) * a + u * b == u * b) by (nonlinear_arith);
        lemma_div_multiples_vanish(b, u);
    }
}

/// Linear interpolation between the fixed-point scalars `a` and `b`.
/// Exact at both ends: `t = 0` gives `a` back and `t = UNIT` gives `b`.
pub fn lerp(a: i64, b: i64, t: i64) -> (r: i64)
    requires
        0 <= a <= UNIT,
        0 <= b <= UNIT,
        0 <= t <= UNIT,
    ensures
        r == lerp_spec(a as int, b as int, t as int),
        0 <= r <= UNIT,
        t == 0 ==> r == a,
        t == UNIT ==> r == b,
{
    proof {
        lemma_lerp_bounds(a as int, b as int, t as int);
        lemma_mul_upper_bound(UNIT as int - t, UNIT as int, a as int, UNIT as int);
        lemma_mul_upper_bound(t as int, UNIT as int, b as int, UNIT as int);
        assert((UNIT as int - t) * a >= 0 && (t as int) * b >= 0) by (nonlinear_arith)
            requires
                0 <= t <= UNIT as int,
                0 <= a,
                0 <= b,
        ;
    }
    ((UNIT - t) * a + t * b) / UNIT
}

/// The floor of the square root of a non-negative integer, found by counting
/// down from `c` to the first candidate whose square does not exceed `x`.
pub open spec fn isqrt_rec(x: int, c: nat) -> int
    decreases c,
{
    if (c as int) * (c as int) <= x {
        c as int
    } else if c == 0 {
        0
    } else {
        isqrt_rec(x, (c - 1) as nat)
    }
}

/// The floor of the square root of `x` (meaningful for `x >= 0`).
pub open spec fn isqrt_spec(x: int) -> int {
    isqrt_rec(x, if x >= 0 { x as nat } else { 0 })
}

/// Counting down from any candidate `c` that over-approximates the root
/// reaches exactly the floor of the square root.
proof fn lemma_isqrt_rec_correct(x: int, c: nat)
    requires
        0 <= x,
        x < ((c + 1) as int) * ((c + 1) as int),
    ensures
        ({
            let r = isqrt_rec(x, c);
            &&& 0 <= r
            &&& r * r <= x
            &&& x < (r + 1) * (r + 1)
        }),
    decreases c,
{
    let r = isqrt_rec(x, c);
    if (c as int) * (c as int) <= x {
        assert(r == c as int);
        assert(r + 1 == (c + 1) as int);
        assert(x < (r + 1) * (r + 1));
    } else if c == 0 {
        // impossible: a negative x is excluded, so 0 * 0 <= x holds
        assert((c as int) * (c as int) == 0) by (nonlinear_arith)
            requires
                c == 0,
        ;
    } else {
        assert(x < (c as int) * (c as int));
        lemma_isqrt_rec_correct(x, (c - 1) as nat);
        assert(r == isqrt_rec(x, (c - 1) as nat));
    }
}

/// `isqrt_spec` really is the floor of the square root.
pub proof fn lemma_isqrt_spec_correct(x: int)
    requires
        0 <= x,
    ensures
        ({
            let r = isqrt_spec(x);
            &&& 0 <= r
            &&& r * r <= x
            &&& x < (r + 1) * (r + 1)
        }),
{
    assert(x < (x + 1) * (x + 1)) by (nonlinear_arith)
        requires
            0 <= x,
    ;
    lemma_isqrt_rec_correct(x, x as nat);
}

/// Two non-negative integers whose squares both bracket `x` are equal.
pub proof fn lemma_isqrt_unique(x: int, r1: int, r2: int)
    requires
        0 <= r1,
        r1 * r1 <= x,
        x < (r1 + 1) * (r1 + 1),
        0 <= r2,
        r2 * r2 <= x,
        x < (r2 + 1) * (r2 + 1),
    ensures
        r1 == r2,
{
    assert(r1 == r2) by (nonlinear_arith)
        requires
            0 <= r1,
            r1 * r1 <= x,
            x < (r1 + 1) * (r1 + 1),
            0 <= r2,
            r2 * r2 <= x,
            x < (r2 + 1) * (r2 + 1),
    ;
}

/// Square roots keep order: a larger argument cannot have a smaller root.
pub proof fn lemma_isqrt_monotone(x: int, y: int)
    requires
        0 <= x <= y,
    ensures
        isqrt_spec(x) <= isqrt_spec(y),
{
    lemma_isqrt_spec_correct(x);
    lemma_isqrt_spec_correct(y);
    assert(isqrt_spec(x) <= isqrt_spec(y)) by (nonlinear_arith)
        requires
            isqrt_spec(x) * isqrt_spec(x) <= x <= y,
            y < (isqrt_spec(y) + 1) * (isqrt_spec(y) + 1),
            0 <= isqrt_spec(x),
            0 <= isqrt_spec(y),
    ;
}

/// The square root of a square of at most one unit is at most one unit, and
/// perfect squares of whole scalars come back exactly.
pub proof fn lemma_isqrt_within_unit(x: int)
    requires
        0 <= x <= (UNIT as int) * (UNIT as int),
    ensures
        0 <= isqrt_spec(x) <= UNIT,
        x == 0 ==> isqrt_spec(x) == 0,
        x == (UNIT as int) * (UNIT as int) ==> isqrt_spec(x) == UNIT,
{
    let r = isqrt_spec(x);
    lemma_isqrt_spec_correct(x);
    assert(r <= UNIT) by (nonlinear_arith)
        requires
            0 <= r,
            r * r <= (UNIT as int) * (UNIT as int),
    ;
    if x == 0 {
        assert(r == 0) by (nonlinear_arith)
            requires
                0 <= r,
                r * r <= 0,
        ;
    }
    if x == (UNIT as int) * (UNIT as int) {
        lemma_isqrt_unique(x, r, UNIT as int);
    }
}

/// The integer square root of `x`, by binary search.
pub fn isqrt(x: i64) -> (r: i64)
    requires
        0 <= x <= 4_000_000_000_000,
    ensures
        r == isqrt_spec(x as int),
        0 <= r <= 2_000_000,
        r * r <= x,
        x < (r + 1) * (r + 1),
{
    let mut lo: i64 = 0;
    let mut hi: i64 = 2_000_001;
    proof {
        assert(2_000_001i64 * 2_000_001i64 > 4_000_000_000_000) by (nonlinear_arith);
    }
    while lo + 1 < hi
        invariant
            0 <= lo < hi <= 2_000_001,
            lo * lo <= x,
            x < hi * hi,
            x <= 4_000_000_000_000,
        decreases hi - lo,
    {
        let mid: i64 = lo + (hi - lo) / 2;
        proof {
            assert(lo < mid < hi);
            assert(mid * mid <= 2_000_001i64 * 2_000_001i64) by (nonlinear_arith)
                requires
                    0 <= mid <= 2_000_001,
            ;
        }
        if mid * mid <= x {
            lo = mid;
        } else {
            hi = mid;
        }
    }
    proof {
        assert(x < (lo + 1) * (lo + 1)) by (nonlinear_arith)
            requires
                x < hi * hi,
                hi == lo + 1,
        ;
        lemma_isqrt_spec_correct(x as int);
        lemma_isqrt_unique(x as int, lo as int, isqrt_spec(x as int));
    }
    lo
}

} // verus!
