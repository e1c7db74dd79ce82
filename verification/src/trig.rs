//! Integer trigonometry over turn fractions.
//!
//! Angles are measured in micro-turns: `UNIT` micro-turns make one full
//! rotation. The core is a quarter wave of the sine, built from a degree-7
//! polynomial on the rising half and completed through the Pythagorean
//! identity on the flat half, so that paired sine and cosine values always
//! satisfy `s^2 + c^2 == UNIT^2` up to the square root's rounding. The
//! arctangent inverts that same direction function by bisecting on the
//! cross product, which keeps the polar round trip tight. The polynomial
//! tracks the real sine to within about two micro-units, and every multiple
//! of a quarter turn is exact.

use crate::fixed::{
    isqrt, isqrt_spec, lemma_div_le, lemma_isqrt_spec_correct, lemma_isqrt_within_unit, UNIT,
};
use vstd::arithmetic::div_mod::{
    lemma_div_is_ordered, lemma_div_multiples_vanish, lemma_div_pos_is_pos,
    lemma_fundamental_div_mod, lemma_mod_bound,
};
use vstd::prelude::*;

verus! {

/// A quarter of a full rotation, in micro-turns.
pub const QUARTER_TURN: i64 = 250_000;

/// Half of a full rotation, in micro-turns.
pub const HALF_TURN: i64 = 500_000;

/// An eighth of a full rotation, in micro-turns.
pub const EIGHTH_TURN: i64 = 125_000;

/// Half of the quarter-wave phase range: the polynomial half of the wave.
pub const HALF_PHASE: i64 = 500_000;

/// `pi/2` at a scale of `10^15` per phase micro-unit: the linear Taylor
/// coefficient of `sin((pi/2) q / UNIT)`.
pub const SIN_C1: i128 = 1_570_796_326_794_896;

/// Cubic Taylor coefficient, scaled for `q^3 / 10^9`.
pub const SIN_C3: i128 = 645_964_097_506;

/// Quintic Taylor coefficient, scaled for `q^5 / 10^19`.
pub const SIN_C5: i128 = 796_926_262;

/// Degree-seven Taylor coefficient, scaled for `(q^7 / 10^8) / 10^21`.
pub const SIN_C7: i128 = 468_175;

/// The common output scale of the polynomial's terms.
pub const SIN_SCALE: i128 = 1_000_000_000_000_000;

/// The integer numerator of the sine polynomial: the degree-7 Taylor series
/// of `UNIT * sin((pi/2) * q / UNIT)` at a scale of `10^15`, with half the
/// scale added so the final division rounds to nearest.
pub open spec fn sin_poly_num_spec(q: int) -> int {
    let t1 = SIN_C1 * q;
    let t3 = (SIN_C3 * (q * q * q)) / 1_000_000_000;
    let t5 = (SIN_C5 * (q * q * q * q * q)) / 10_000_000_000_000_000_000;
    let q7r = ((q * q * q * q) / 100_000_000) * (q * q * q);
    let t7 = (SIN_C7 * q7r) / 1_000_000_000_000_000_000_000;
    t1 - t3 + t5 - t7 + 500_000_000_000_000
}

/// The degree-7 Taylor polynomial of `UNIT * sin((pi/2) * q / UNIT)` on the
/// rising half of the quarter wave, rounded to the nearest micro-unit.
pub open spec fn sin_poly_spec(q: int) -> int {
    sin_poly_num_spec(q) / 1_000_000_000_000_000
}

/// On the rising half the polynomial stays between the diagonal and a line
/// of slope `pi/2`, and vanishes exactly at zero. These facts carry the
/// whole quarter wave: the upper line keeps the Pythagorean complement
/// above the diagonal on the flat half.
pub proof fn lemma_sin_poly_props(q: int)
    requires
        0 <= q <= HALF_PHASE,
    ensures
        sin_poly_num_spec(q) >= 0,
        q <= sin_poly_spec(q),
        sin_poly_spec(q) <= 800_000,
        SIN_SCALE * (sin_poly_spec(q) - 1) <= SIN_C1 * q,
        q == 0 ==> sin_poly_spec(q) == 0,
{
    let t1 = SIN_C1 * q;
    let q3 = q * q * q;
    let q5 = q * q * q * q * q;
    let q4 = q * q * q * q;
    let t3 = (SIN_C3 * q3) / 1_000_000_000;
    let t5 = (SIN_C5 * q5) / 10_000_000_000_000_000_000;
    let q4d = q4 / 100_000_000;
    let q7r = q4d * q3;
    let t7 = (SIN_C7 * q7r) / 1_000_000_000_000_000_000_000;
    let nsum = sin_poly_num_spec(q);
    let r = sin_poly_spec(q);
    assert(nsum == t1 - t3 + t5 - t7 + 500_000_000_000_000);
    assert(0 <= q3 <= 125_000_000_000_000_000 && 0 <= q4 <= 62_500_000_000_000_000_000_000 && 0
        <= q5) by (nonlinear_arith)
        requires
            0 <= q <= 500_000,
            q3 == q * q * q,
            q4 == q * q * q * q,
            q5 == q * q * q * q * q,
    ;
    lemma_div_le(q4, 625_000_000_000_000, 100_000_000);
    assert(0 <= q7r) by (nonlinear_arith)
        requires
            0 <= q4d,
            0 <= q3,
            q7r == q4d * q3,
    ;
    // every fractional term is non-negative
    assert(SIN_C3 * q3 >= 0 && SIN_C5 * q5 >= 0 && SIN_C7 * q7r >= 0) by (nonlinear_arith)
        requires
            0 <= q3,
            0 <= q5,
            0 <= q7r,
    ;
    lemma_div_pos_is_pos(SIN_C3 * q3, 1_000_000_000);
    lemma_div_pos_is_pos(SIN_C5 * q5, 10_000_000_000_000_000_000);
    lemma_div_pos_is_pos(SIN_C7 * q7r, 1_000_000_000_000_000_000_000);
    // the cubic term dominates the quintic
    assert((SIN_C5 * q5) * 1_000_000_000 <= (SIN_C3 * q3) * 10_000_000_000_000_000_000)
        by (nonlinear_arith)
        requires
            0 <= q <= 500_000,
            q3 == q * q * q,
            q5 == q * q * q * q * q,
    ;
    lemma_div_denominator_pair(SIN_C5 * q5, 10_000_000_000_000_000_000, SIN_C3 * q3,
        1_000_000_000);
    assert(t5 <= t3);
    // the subtracted terms stay below the slack of the linear one
    assert(SIN_C3 * q3 <= 161_491_024_376_500_000_000_000 * q) by (nonlinear_arith)
        requires
            0 <= q <= 500_000,
            q3 == q * q * q,
    ;
    assert(SIN_C7 * q7r <= 73_152_343_750_000_000_000_000_000_000_000 * q) by (nonlinear_arith)
        requires
            0 <= q <= 500_000,
            0 <= q4d <= 625_000_000_000_000,
            q3 == q * q * q,
            q7r == q4d * q3,
    ;
    assert((1_000_000_000 * t3) <= SIN_C3 * q3 && SIN_C3 * q3 < 1_000_000_000 * (t3 + 1)) by {
        lemma_fundamental_div_mod(SIN_C3 * q3, 1_000_000_000);
        lemma_mod_bound(SIN_C3 * q3, 1_000_000_000);
    };
    assert((1_000_000_000_000_000_000_000 * t7) <= SIN_C7 * q7r) by {
        lemma_fundamental_div_mod(SIN_C7 * q7r, 1_000_000_000_000_000_000_000);
        lemma_mod_bound(SIN_C7 * q7r, 1_000_000_000_000_000_000_000);
    };
    assert(t3 <= 161_491_024_376_501 * q + 1) by (nonlinear_arith)
        requires
            1_000_000_000 * t3 <= SIN_C3 * q3,
            SIN_C3 * q3 <= 161_491_024_376_500_000_000_000 * q,
            0 <= t3,
            0 <= q,
    ;
    assert(t7 <= 73_152_343_751 * q + 1) by (nonlinear_arith)
        requires
            1_000_000_000_000_000_000_000 * t7 <= SIN_C7 * q7r,
            SIN_C7 * q7r <= 73_152_343_750_000_000_000_000_000_000_000 * q,
            0 <= t7,
            0 <= q,
    ;
    // diagonal: the numerator clears SIN_SCALE * q even after the rounding
    assert(nsum >= 1_000_000_000_000_000 * q) by (nonlinear_arith)
        requires
            nsum == t1 - t3 + t5 - t7 + 500_000_000_000_000,
            t1 == SIN_C1 * q,
            t5 >= 0,
            t3 <= 161_491_024_376_501 * q + 1,
            t7 <= 73_152_343_751 * q + 1,
            0 <= q,
            SIN_C1 == 1_570_796_326_794_896,
    ;
    assert(nsum >= 0) by (nonlinear_arith)
        requires
            nsum >= 1_000_000_000_000_000 * q,
            q >= 0,
    ;
    lemma_div_is_ordered(1_000_000_000_000_000 * q, nsum, 1_000_000_000_000_000);
    assert((1_000_000_000_000_000 * q) / 1_000_000_000_000_000 == q) by {
        lemma_div_multiples_vanish(q, 1_000_000_000_000_000);
    };
    assert(q <= r);
    // upper line: the numerator stays at most half a scale above SIN_C1 * q
    assert(nsum <= SIN_C1 * q + 500_000_000_000_000);
    assert(1_000_000_000_000_000 * r <= nsum) by {
        lemma_fundamental_div_mod(nsum, 1_000_000_000_000_000);
        lemma_mod_bound(nsum, 1_000_000_000_000_000);
    };
    assert(SIN_SCALE * (r - 1) <= SIN_C1 * q) by (nonlinear_arith)
        requires
            1_000_000_000_000_000 * r <= nsum,
            nsum <= SIN_C1 * q + 500_000_000_000_000,
            SIN_SCALE == 1_000_000_000_000_000,
    ;
    assert(r <= 800_000) by (nonlinear_arith)
        requires
            SIN_SCALE * (r - 1) <= SIN_C1 * q,
            0 <= q <= 500_000,
            SIN_SCALE == 1_000_000_000_000_000,
            SIN_C1 == 1_570_796_326_794_896,
    ;
    if q == 0 {
        assert(sin_poly_num_spec(0) == 500_000_000_000_000);
        assert(r == 0);
    }
}

/// Two fractions with a smaller cross-multiplied numerator have ordered
/// floors: `a/b <= c/d` when `a*d <= c*b` (all positive denominators).
proof fn lemma_div_denominator_pair(a: int, b: int, c: int, d: int)
    requires
        b > 0,
        d > 0,
        0 <= a,
        0 <= c,
        a * d <= c * b,
    ensures
        a / b <= c / d,
{
    let qa = a / b;
    let qc = c / d;
    lemma_fundamental_div_mod(a, b);
    lemma_mod_bound(a, b);
    lemma_fundamental_div_mod(c, d);
    lemma_mod_bound(c, d);
    lemma_div_pos_is_pos(a, b);
    lemma_div_pos_is_pos(c, d);
    assert(qa <= qc) by (nonlinear_arith)
        requires
            a == b * qa + a % b,
            0 <= a % b < b,
            c == d * qc + c % d,
            0 <= c % d < d,
            a * d <= c * b,
            b > 0,
            d > 0,
            qa >= 0,
            qc >= 0,
    ;
}

/// The rising half of the quarter wave, computed in 128-bit integers.
fn sin_poly(q: i64) -> (r: i64)
    requires
        0 <= q <= HALF_PHASE,
    ensures
        r == sin_poly_spec(q as int),
        0 <= r <= 800_000,
        q <= r,
{
    proof {
        lemma_sin_poly_props(q as int);
        assert(0 <= (q as int) * (q as int) <= 250_000_000_000 && 0 <= (q as int) * (q as int)
            * (q as int) <= 125_000_000_000_000_000 && 0 <= (q as int) * (q as int) * (q as int)
            * (q as int) <= 62_500_000_000_000_000_000_000 && 0 <= (q as int) * (q as int) * (
        q as int) * (q as int) * (q as int) <= 31_250_000_000_000_000_000_000_000_000)
            by (nonlinear_arith)
            requires
                0 <= q as int <= 500_000,
        ;
    }
    let qw: i128 = q as i128;
    let q3: i128 = qw * qw * qw;
    let q5: i128 = q3 * qw * qw;
    proof {
        assert(q3 * qw == (q as int) * (q as int) * (q as int) * (q as int) && q3 * qw * qw == (
        q as int) * (q as int) * (q as int) * (q as int) * (q as int)) by (nonlinear_arith)
            requires
                q3 == (q as int) * (q as int) * (q as int),
                qw == q as int,
        ;
        assert(0 <= SIN_C3 * (q3 as int) <= 80_745_512_188_250_000_000_000_000_000 && 0 <= SIN_C5
            * (q5 as int) <= 24_903_945_687_500_000_000_000_000_000_000_000_000)
            by (nonlinear_arith)
            requires
                0 <= q3 as int <= 125_000_000_000_000_000,
                0 <= q5 as int <= 31_250_000_000_000_000_000_000_000_000,
        ;
        assert(0 <= SIN_C1 * (qw as int) <= 785_398_163_397_448_000_000) by (nonlinear_arith)
            requires
                0 <= qw as int <= 500_000,
        ;
    }
    let t1: i128 = SIN_C1 * qw;
    let t3: i128 = (SIN_C3 * q3) / 1_000_000_000;
    let t5: i128 = (SIN_C5 * q5) / 10_000_000_000_000_000_000;
    let q4d: i128 = (q3 * qw) / 100_000_000;
    proof {
        lemma_div_le((q3 as int) * (qw as int), 625_000_000_000_000, 100_000_000);
        assert(0 <= (q4d as int) * (q3 as int) <= 78_125_000_000_000_000_000_000_000_000_000 && 0
            <= SIN_C7 * ((q4d as int) * (q3 as int))
            <= 36_580_617_187_500_000_000_000_000_000_000_000_000) by (nonlinear_arith)
            requires
                0 <= q4d as int <= 625_000_000_000_000,
                0 <= q3 as int <= 125_000_000_000_000_000,
        ;
    }
    let q7r: i128 = q4d * q3;
    let t7: i128 = (SIN_C7 * q7r) / 1_000_000_000_000_000_000_000;
    let nsum: i128 = t1 - t3 + t5 - t7 + 500_000_000_000_000;
    proof {
        assert(nsum == sin_poly_num_spec(q as int));
        assert(0 <= nsum / 1_000_000_000_000_000 <= 800_000);
    }
    let r: i128 = nsum / 1_000_000_000_000_000;
    r as i64
}

/// One quarter wave of the sine: `UNIT * sin((pi/2) * q / UNIT)` for a
/// phase `q` in `[0, UNIT]`. The rising half is the Taylor polynomial; the
/// flat half is its Pythagorean complement, so a paired sine and cosine
/// square-sum to `UNIT^2` up to the root's rounding.
pub open spec fn sin_quarter_spec(q: int) -> int {
    if q <= HALF_PHASE {
        sin_poly_spec(q)
    } else {
        let s = sin_poly_spec((UNIT as int) - q);
        isqrt_spec((UNIT as int) * (UNIT as int) - s * s)
    }
}

/// The quarter wave stays inside `[0, UNIT]`, rides on or above the
/// diagonal, and is exact at both ends.
pub proof fn lemma_sin_quarter_props(q: int)
    requires
        0 <= q <= UNIT,
    ensures
        0 <= sin_quarter_spec(q) <= UNIT,
        q <= sin_quarter_spec(q),
        q == 0 ==> sin_quarter_spec(q) == 0,
        q == UNIT ==> sin_quarter_spec(q) == UNIT,
{
    let u = UNIT as int;
    if q <= HALF_PHASE {
        lemma_sin_poly_props(q);
        assert(sin_poly_spec(q) <= u);
    } else {
        let v = u - q;
        lemma_sin_poly_props(v);
        let s = sin_poly_spec(v);
        let b = (SIN_C1 * v) / (SIN_SCALE as int);
        assert(b * SIN_SCALE <= SIN_C1 * v && b >= 0) by {
            vstd::arithmetic::div_mod::lemma_fundamental_div_mod(SIN_C1 * v, SIN_SCALE as int);
            vstd::arithmetic::div_mod::lemma_mod_bound(SIN_C1 * v, SIN_SCALE as int);
            assert(SIN_SCALE * b == b * SIN_SCALE) by (nonlinear_arith);
            lemma_div_pos_is_pos(SIN_C1 * v, SIN_SCALE as int);
            assert(SIN_C1 * v >= 0) by (nonlinear_arith)
                requires
                    v >= 0,
            ;
        };
        assert(SIN_C1 * v < SIN_SCALE * (b + 1)) by {
            vstd::arithmetic::div_mod::lemma_fundamental_div_mod(SIN_C1 * v, SIN_SCALE as int);
            vstd::arithmetic::div_mod::lemma_mod_bound(SIN_C1 * v, SIN_SCALE as int);
            assert(SIN_SCALE * (b + 1) == SIN_SCALE * b + SIN_SCALE) by (nonlinear_arith);
        };
        assert(s <= b + 1) by (nonlinear_arith)
            requires
                SIN_SCALE * (s - 1) <= SIN_C1 * v,
                SIN_C1 * v < SIN_SCALE * (b + 1),
                SIN_SCALE == 1_000_000_000_000_000,
        ;
        // the polynomial sits under a line of slope pi/2 ...
        assert(1_000_000 * s <= 1_570_797 * v + 2_000_000) by (nonlinear_arith)
            requires
                s <= b + 1,
                b * SIN_SCALE <= SIN_C1 * v,
                0 <= b,
                0 <= v,
                SIN_SCALE == 1_000_000_000_000_000,
                SIN_C1 == 1_570_796_326_794_896,
        ;
        // ... so its square clears the diagonal's complement
        if v == 0 {
            assert(s == 0);
            assert(u * u - s * s >= q * q) by (nonlinear_arith)
                requires
                    s == 0,
                    q == u,
            ;
        } else {
            assert(s * s <= v * (2 * u - v)) by (nonlinear_arith)
                requires
                    0 <= s,
                    1_000_000 * s <= 1_570_797 * v + 2_000_000,
                    1 <= v <= 500_000,
                    u == 1_000_000,
            ;
            assert(u * u - s * s >= q * q) by (nonlinear_arith)
                requires
                    s * s <= v * (2 * u - v),
                    v == u - q,
            ;
        }
        assert(0 <= s * s <= u * u) by (nonlinear_arith)
            requires
                0 <= s,
                s * s <= v * (2 * u - v),
                0 <= v <= 500_000,
                u == 1_000_000,
        ;
        lemma_isqrt_within_unit(u * u - s * s);
        let r = isqrt_spec(u * u - s * s);
        lemma_isqrt_spec_correct(u * u - s * s);
        assert(q <= r) by (nonlinear_arith)
            requires
                q * q <= u * u - s * s,
                u * u - s * s < (r + 1) * (r + 1),
                0 <= q,
                0 <= r,
        ;
    }
}

/// One quarter wave of the sine, for a phase in `[0, UNIT]`.
pub fn sin_quarter(q: i64) -> (r: i64)
    requires
        0 <= q <= UNIT,
    ensures
        r == sin_quarter_spec(q as int),
        0 <= r <= UNIT,
        q <= r,
        q == 0 ==> r == 0,
        q == UNIT ==> r == UNIT,
{
    proof {
        lemma_sin_quarter_props(q as int);
    }
    if q <= HALF_PHASE {
        sin_poly(q)
    } else {
        let s = sin_poly(UNIT - q);
        proof {
            lemma_sin_poly_props(UNIT as int - q);
            assert(0 <= (s as int) * (s as int) <= 640_000_000_000) by (nonlinear_arith)
                requires
                    0 <= s as int <= 800_000,
            ;
        }
        isqrt(UNIT * UNIT - s * s)
    }
}

/// Sine of `t` micro-turns, assembled from the quarter wave by reflection:
/// the second quarter runs it backward, the second half negates it.
pub open spec fn sin_turn_spec(t: int) -> int {
    if t <= QUARTER_TURN {
        sin_quarter_spec(4 * t)
    } else if t <= HALF_TURN {
        sin_quarter_spec(4 * ((HALF_TURN as int) - t))
    } else if t <= 3 * (QUARTER_TURN as int) {
        -sin_quarter_spec(4 * (t - (HALF_TURN as int)))
    } else {
        -sin_quarter_spec(4 * ((UNIT as int) - t))
    }
}

/// The full-turn sine stays within `[-UNIT, UNIT]`, is non-negative on the
/// first half turn, and is exact at every multiple of a quarter turn.
pub proof fn lemma_sin_turn_props(t: int)
    requires
        0 <= t <= UNIT,
    ensures
        -UNIT <= sin_turn_spec(t) <= UNIT,
        t <= HALF_TURN ==> sin_turn_spec(t) >= 0,
        t == 0 || t == HALF_TURN || t == UNIT ==> sin_turn_spec(t) == 0,
        t == QUARTER_TURN ==> sin_turn_spec(t) == UNIT,
        t == 3 * QUARTER_TURN ==> sin_turn_spec(t) == -UNIT,
{
    if t <= QUARTER_TURN {
        lemma_sin_quarter_props(4 * t);
    } else if t <= HALF_TURN {
        lemma_sin_quarter_props(4 * ((HALF_TURN as int) - t));
    } else if t <= 3 * (QUARTER_TURN as int) {
        lemma_sin_quarter_props(4 * (t - (HALF_TURN as int)));
    } else {
        lemma_sin_quarter_props(4 * ((UNIT as int) - t));
    }
}

/// Sine of `t` micro-turns, in `[-UNIT, UNIT]`.
pub fn sin_turn(t: i64) -> (r: i64)
    requires
        0 <= t <= UNIT,
    ensures
        r == sin_turn_spec(t as int),
        -UNIT <= r <= UNIT,
{
    proof {
        lemma_sin_turn_props(t as int);
    }
    if t <= QUARTER_TURN {
        sin_quarter(4 * t)
    } else if t <= HALF_TURN {
        sin_quarter(4 * (HALF_TURN - t))
    } else if t <= 3 * QUARTER_TURN {
        let m = sin_quarter(4 * (t - HALF_TURN));
        -m
    } else {
        let m = sin_quarter(4 * (UNIT - t));
        -m
    }
}

/// Each micro-unit of phase raises the rising half's polynomial: the
/// linear term outruns the growth of every subtracted term by more than a
/// whole output scale per step.
proof fn lemma_sin_poly_step(q: int)
    requires
        0 <= q < HALF_PHASE,
    ensures
        sin_poly_spec(q) < sin_poly_spec(q + 1),
{
    let p = q + 1;
    lemma_sin_poly_props(q);
    lemma_sin_poly_props(p);
    let t3q = (SIN_C3 * (q * q * q)) / 1_000_000_000;
    let t3p = (SIN_C3 * (p * p * p)) / 1_000_000_000;
    let t5q = (SIN_C5 * (q * q * q * q * q)) / 10_000_000_000_000_000_000;
    let t5p = (SIN_C5 * (p * p * p * p * p)) / 10_000_000_000_000_000_000;
    let q4dq = (q * q * q * q) / 100_000_000;
    let q4dp = (p * p * p * p) / 100_000_000;
    let q7rq = q4dq * (q * q * q);
    let q7rp = q4dp * (p * p * p);
    let t7q = (SIN_C7 * q7rq) / 1_000_000_000_000_000_000_000;
    let t7p = (SIN_C7 * q7rp) / 1_000_000_000_000_000_000_000;
    // the cubic term grows by at most its top-of-range step
    assert(SIN_C3 * (p * p * p) <= SIN_C3 * (q * q * q) + 484_474_042_076_292_223_097_506)
        by (nonlinear_arith)
        requires
            p == q + 1,
            0 <= q < 500_000,
    ;
    lemma_fundamental_div_mod(SIN_C3 * (q * q * q), 1_000_000_000);
    lemma_mod_bound(SIN_C3 * (q * q * q), 1_000_000_000);
    lemma_fundamental_div_mod(SIN_C3 * (p * p * p), 1_000_000_000);
    lemma_mod_bound(SIN_C3 * (p * p * p), 1_000_000_000);
    assert(t3p <= t3q + 484_475_000_000_000) by (nonlinear_arith)
        requires
            SIN_C3 * (p * p * p) == 1_000_000_000 * t3p + (SIN_C3 * (p * p * p))
                % 1_000_000_000,
            0 <= (SIN_C3 * (p * p * p)) % 1_000_000_000 < 1_000_000_000,
            SIN_C3 * (q * q * q) == 1_000_000_000 * t3q + (SIN_C3 * (q * q * q))
                % 1_000_000_000,
            0 <= (SIN_C3 * (q * q * q)) % 1_000_000_000 < 1_000_000_000,
            SIN_C3 * (p * p * p) <= SIN_C3 * (q * q * q) + 484_474_042_076_292_223_097_506,
    ;
    // the quintic term never shrinks
    assert(SIN_C5 * (q * q * q * q * q) <= SIN_C5 * (p * p * p * p * p)) by (nonlinear_arith)
        requires
            p == q + 1,
            0 <= q,
    ;
    lemma_div_is_ordered(SIN_C5 * (q * q * q * q * q), SIN_C5 * (p * p * p * p * p),
        10_000_000_000_000_000_000);
    // the seventh-power term grows by at most its top-of-range step
    lemma_fundamental_div_mod(q * q * q * q, 100_000_000);
    lemma_mod_bound(q * q * q * q, 100_000_000);
    lemma_fundamental_div_mod(p * p * p * p, 100_000_000);
    lemma_mod_bound(p * p * p * p, 100_000_000);
    assert(q4dp <= q4dq + 5_000_015_002 && 0 <= q4dp <= 625_000_000_000_000 && 0 <= q4dq)
        by (nonlinear_arith)
        requires
            p == q + 1,
            0 <= q < 500_000,
            p * p * p * p == 100_000_000 * q4dp + (p * p * p * p) % 100_000_000,
            0 <= (p * p * p * p) % 100_000_000 < 100_000_000,
            q * q * q * q == 100_000_000 * q4dq + (q * q * q * q) % 100_000_000,
            0 <= (q * q * q * q) % 100_000_000 < 100_000_000,
    ;
    assert(q7rp <= q7rq + 1_093_753_000_000_000_000_000_000_000 && SIN_C7 * q7rp <= SIN_C7
        * q7rq + 512_068_000_000_000_000_000_000_000_000_000) by (nonlinear_arith)
        requires
            q7rp == q4dp * (p * p * p),
            q7rq == q4dq * (q * q * q),
            q4dp <= q4dq + 5_000_015_002,
            0 <= q4dp <= 625_000_000_000_000,
            0 <= q4dq,
            p == q + 1,
            0 <= q < 500_000,
    ;
    lemma_fundamental_div_mod(SIN_C7 * q7rq, 1_000_000_000_000_000_000_000);
    lemma_mod_bound(SIN_C7 * q7rq, 1_000_000_000_000_000_000_000);
    lemma_fundamental_div_mod(SIN_C7 * q7rp, 1_000_000_000_000_000_000_000);
    lemma_mod_bound(SIN_C7 * q7rp, 1_000_000_000_000_000_000_000);
    assert(t7p <= t7q + 513_000_000_000) by (nonlinear_arith)
        requires
            SIN_C7 * q7rp == 1_000_000_000_000_000_000_000 * t7p + (SIN_C7 * q7rp)
                % 1_000_000_000_000_000_000_000,
            0 <= (SIN_C7 * q7rp) % 1_000_000_000_000_000_000_000
                < 1_000_000_000_000_000_000_000,
            SIN_C7 * q7rq == 1_000_000_000_000_000_000_000 * t7q + (SIN_C7 * q7rq)
                % 1_000_000_000_000_000_000_000,
            0 <= (SIN_C7 * q7rq) % 1_000_000_000_000_000_000_000
                < 1_000_000_000_000_000_000_000,
            SIN_C7 * q7rp <= SIN_C7 * q7rq + 512_068_000_000_000_000_000_000_000_000_000,
    ;
    // the numerator gains more than a whole output scale per step
    assert(sin_poly_num_spec(q) + 1_000_000_000_000_000 <= sin_poly_num_spec(p));
    vstd::arithmetic::div_mod::lemma_div_plus_one(sin_poly_num_spec(q), 1_000_000_000_000_000);
    lemma_div_is_ordered(sin_poly_num_spec(q) + 1_000_000_000_000_000, sin_poly_num_spec(p),
        1_000_000_000_000_000);
}

/// One step of the whole quarter wave: the rising half climbs with the
/// polynomial, the flat half with its complement, and at the seam the
/// complement clears the middle value.
proof fn lemma_sin_quarter_step(q: int)
    requires
        0 <= q < UNIT,
    ensures
        sin_quarter_spec(q) <= sin_quarter_spec(q + 1),
{
    let u = UNIT as int;
    if q + 1 <= HALF_PHASE {
        lemma_sin_poly_step(q);
    } else if q == HALF_PHASE {
        // the seam: the middle value against the first complement
        assert(sin_poly_num_spec(500_000) == 707_106_969_606_073_000_000) by (nonlinear_arith);
        assert(sin_poly_spec(500_000) == 707_106);
        lemma_sin_poly_step(499_999);
        lemma_sin_poly_props(499_999);
        let m = sin_poly_spec(u - (q + 1));
        assert(m <= 707_106);
        assert(0 <= m * m <= 640_000_000_000) by (nonlinear_arith)
            requires
                0 <= m <= 800_000,
        ;
        lemma_isqrt_spec_correct(u * u - m * m);
        let bb = isqrt_spec(u * u - m * m);
        assert(707_106 <= bb) by (nonlinear_arith)
            requires
                0 <= m <= 707_106,
                u * u - m * m < (bb + 1) * (bb + 1),
                0 <= bb,
                u == 1_000_000,
        ;
    } else {
        let v = u - q;
        lemma_sin_poly_step(v - 1);
        lemma_sin_poly_props(v);
        lemma_sin_poly_props(v - 1);
        let m1 = sin_poly_spec(v);
        let m2 = sin_poly_spec(v - 1);
        assert(0 <= m2 * m2 <= m1 * m1 <= 640_000_000_000) by (nonlinear_arith)
            requires
                0 <= m2 <= m1 <= 800_000,
        ;
        crate::fixed::lemma_isqrt_monotone(u * u - m1 * m1, u * u - m2 * m2);
    }
}

/// The whole quarter wave never steps backward.
pub proof fn lemma_sin_quarter_monotone(q1: int, q2: int)
    requires
        0 <= q1 <= q2 <= UNIT,
    ensures
        sin_quarter_spec(q1) <= sin_quarter_spec(q2),
    decreases q2 - q1,
{
    if q1 < q2 {
        lemma_sin_quarter_step(q1);
        lemma_sin_quarter_monotone(q1 + 1, q2);
    }
}

/// With a first-quadrant input the cross product can only fall as the
/// angle grows, because the direction family is ordered. Together with the
/// bisection's bracket this pins the returned angle completely: it is
/// exactly the last angle whose direction has not yet passed the point.
pub proof fn lemma_cross_antitone(ax: int, ay: int, a1: int, a2: int)
    requires
        0 <= ax,
        0 <= ay,
        0 <= a1 <= a2 <= QUARTER_TURN,
    ensures
        cross_spec(ax, ay, a2) <= cross_spec(ax, ay, a1),
{
    let u = UNIT as int;
    lemma_sin_quarter_monotone(4 * a1, 4 * a2);
    lemma_sin_quarter_monotone(u - 4 * a2, u - 4 * a1);
    assert(ay * dir_x_spec(a2) <= ay * dir_x_spec(a1) && ax * dir_y_spec(a1) <= ax * dir_y_spec(
        a2,
    )) by (nonlinear_arith)
        requires
            dir_x_spec(a2) <= dir_x_spec(a1),
            dir_y_spec(a1) <= dir_y_spec(a2),
            0 <= ax,
            0 <= ay,
    ;
}

/// Complementary phases of the quarter wave sit on the unit circle up to
/// the square root's rounding: their squares sum to within three units of
/// a whole square.
proof fn lemma_sin_quarter_pair(p: int)
    requires
        0 <= p <= UNIT,
    ensures
        ({
            let a = sin_quarter_spec(p);
            let b = sin_quarter_spec((UNIT as int) - p);
            (UNIT as int) * (UNIT as int) - 3 * (UNIT as int) <= a * a + b * b <= (UNIT as int) * (
            UNIT as int)
        }),
{
    let u = UNIT as int;
    lemma_sin_quarter_props(p);
    lemma_sin_quarter_props(u - p);
    if p < HALF_PHASE {
        let m = sin_poly_spec(p);
        lemma_sin_poly_props(p);
        assert(0 <= m * m <= 640_000_000_000) by (nonlinear_arith)
            requires
                0 <= m <= 800_000,
        ;
        lemma_isqrt_spec_correct(u * u - m * m);
        let bb = isqrt_spec(u * u - m * m);
        assert(sin_quarter_spec(u - p) == bb);
        assert(u * u - 3 * u <= m * m + bb * bb <= u * u) by (nonlinear_arith)
            requires
                bb * bb <= u * u - m * m,
                u * u - m * m < (bb + 1) * (bb + 1),
                0 <= bb <= u,
                u == 1_000_000,
        ;
    } else if p > HALF_PHASE {
        let m = sin_poly_spec(u - p);
        lemma_sin_poly_props(u - p);
        assert(0 <= m * m <= 640_000_000_000) by (nonlinear_arith)
            requires
                0 <= m <= 800_000,
        ;
        lemma_isqrt_spec_correct(u * u - m * m);
        let bb = isqrt_spec(u * u - m * m);
        assert(sin_quarter_spec(p) == bb);
        assert(u * u - 3 * u <= m * m + bb * bb <= u * u) by (nonlinear_arith)
            requires
                bb * bb <= u * u - m * m,
                u * u - m * m < (bb + 1) * (bb + 1),
                0 <= bb <= u,
                u == 1_000_000,
        ;
    } else {
        // both phases sit at the wave's middle: a ground evaluation
        assert(sin_poly_num_spec(500_000) == 707_106_969_606_073_000_000) by (nonlinear_arith);
        assert(sin_poly_spec(500_000) == 707_106);
        assert(u * u - 3 * u <= 707_106 * 707_106 + 707_106 * 707_106 <= u * u);
    }
}

/// A paired sine and cosine sit on the unit circle up to the square root's
/// rounding: their squares sum to within three units of `UNIT^2`. This is
/// what lets the polar round trip recover lightness.
pub proof fn lemma_sin_cos_norm(t: int)
    requires
        0 <= t <= UNIT,
    ensures
        ({
            let s = sin_turn_spec(t);
            let c = cos_turn_spec(t);
            (UNIT as int) * (UNIT as int) - 3 * (UNIT as int) <= s * s + c * c <= (UNIT as int) * (
            UNIT as int)
        }),
{
    let u = UNIT as int;
    let q = QUARTER_TURN as int;
    let s = sin_turn_spec(t);
    let c = cos_turn_spec(t);
    let p: int = if t <= q {
        4 * t
    } else if t <= 2 * q {
        4 * ((HALF_TURN as int) - t)
    } else if t <= 3 * q {
        4 * (t - (HALF_TURN as int))
    } else {
        4 * (u - t)
    };
    assert(s == sin_quarter_spec(p) || s == -sin_quarter_spec(p));
    assert(c == sin_quarter_spec(u - p) || c == -sin_quarter_spec(u - p));
    lemma_sin_quarter_pair(p);
    assert(s * s == sin_quarter_spec(p) * sin_quarter_spec(p) && c * c == sin_quarter_spec(u - p)
        * sin_quarter_spec(u - p)) by (nonlinear_arith)
        requires
            s == sin_quarter_spec(p) || s == -sin_quarter_spec(p),
            c == sin_quarter_spec(u - p) || c == -sin_quarter_spec(u - p),
    ;
}

/// Cosine of `t` micro-turns: the sine shifted back by a quarter turn.
pub open spec fn cos_turn_spec(t: int) -> int {
    if t < 3 * (QUARTER_TURN as int) {
        sin_turn_spec(t + (QUARTER_TURN as int))
    } else {
        sin_turn_spec(t + (QUARTER_TURN as int) - (UNIT as int))
    }
}

/// The cosine stays within `[-UNIT, UNIT]` and is exact at every multiple of
/// a quarter turn.
pub proof fn lemma_cos_turn_props(t: int)
    requires
        0 <= t <= UNIT,
    ensures
        -UNIT <= cos_turn_spec(t) <= UNIT,
        t == 0 || t == UNIT ==> cos_turn_spec(t) == UNIT,
        t == QUARTER_TURN || t == 3 * QUARTER_TURN ==> cos_turn_spec(t) == 0,
        t == HALF_TURN ==> cos_turn_spec(t) == -UNIT,
{
    if t < 3 * (QUARTER_TURN as int) {
        lemma_sin_turn_props(t + (QUARTER_TURN as int));
    } else {
        lemma_sin_turn_props(t + (QUARTER_TURN as int) - (UNIT as int));
    }
}

/// Cosine of `t` micro-turns, in `[-UNIT, UNIT]`.
pub fn cos_turn(t: i64) -> (r: i64)
    requires
        0 <= t <= UNIT,
    ensures
        r == cos_turn_spec(t as int),
        -UNIT <= r <= UNIT,
{
    proof {
        lemma_cos_turn_props(t as int);
    }
    if t < 3 * QUARTER_TURN {
        sin_turn(t + QUARTER_TURN)
    } else {
        sin_turn(t + QUARTER_TURN - UNIT)
    }
}

/// The vertical component of the first-quadrant direction at angle `a`
/// micro-turns.
pub open spec fn dir_y_spec(a: int) -> int {
    sin_quarter_spec(4 * a)
}

/// The horizontal component of the first-quadrant direction at angle `a`
/// micro-turns.
pub open spec fn dir_x_spec(a: int) -> int {
    sin_quarter_spec((UNIT as int) - 4 * a)
}

/// Which side of the direction at angle `a` the point `(ax, ay)` lies on:
/// positive while the point's own angle is at least `a`.
pub open spec fn cross_spec(ax: int, ay: int, a: int) -> int {
    ay * dir_x_spec(a) - ax * dir_y_spec(a)
}

/// Bisection for the last angle whose direction has not yet passed the
/// point `(ax, ay)`, maintaining a non-negative cross product on the low
/// side and a negative one on the high side.
pub open spec fn angle_search_spec(ax: int, ay: int, lo: int, hi: int) -> int
    decreases hi - lo,
{
    if hi - lo <= 1 {
        lo
    } else {
        let mid = lo + (hi - lo) / 2;
        if cross_spec(ax, ay, mid) >= 0 {
            angle_search_spec(ax, ay, mid, hi)
        } else {
            angle_search_spec(ax, ay, lo, mid)
        }
    }
}

/// The first-quadrant angle of the point `(ax, ay)`, in micro-turns.
pub open spec fn quadrant_angle_spec(ay: int, ax: int) -> int {
    if cross_spec(ax, ay, QUARTER_TURN as int) >= 0 {
        QUARTER_TURN as int
    } else {
        angle_search_spec(ax, ay, 0, QUARTER_TURN as int)
    }
}

/// Computes the cross product of `(ax, ay)` against the direction at `a`.
fn cross_at(ax: i64, ay: i64, a: i64) -> (r: i64)
    requires
        0 <= ax <= UNIT,
        0 <= ay <= UNIT,
        0 <= a <= QUARTER_TURN,
    ensures
        r == cross_spec(ax as int, ay as int, a as int),
{
    proof {
        lemma_sin_quarter_props(4 * (a as int));
        lemma_sin_quarter_props((UNIT as int) - 4 * (a as int));
        assert(0 <= (ay as int) * dir_x_spec(a as int) <= 1_000_000_000_000 && 0 <= (ax as int)
            * dir_y_spec(a as int) <= 1_000_000_000_000) by (nonlinear_arith)
            requires
                0 <= ax as int <= 1_000_000,
                0 <= ay as int <= 1_000_000,
                0 <= dir_x_spec(a as int) <= 1_000_000,
                0 <= dir_y_spec(a as int) <= 1_000_000,
        ;
    }
    let dx = sin_quarter(UNIT - 4 * a);
    let dy = sin_quarter(4 * a);
    ay * dx - ax * dy
}

/// The first-quadrant angle of `(ax, ay)`, both components non-negative and
/// not both zero, found by bisecting on the cross product against the
/// quarter wave's own direction function. Exact on both axes.
fn quadrant_angle(ay: i64, ax: i64) -> (r: i64)
    requires
        0 <= ax <= UNIT,
        0 <= ay <= UNIT,
        ax > 0 || ay > 0,
    ensures
        r == quadrant_angle_spec(ay as int, ax as int),
        0 <= r <= QUARTER_TURN,
        ay == 0 ==> r == 0,
        ax == 0 ==> r == QUARTER_TURN,
{
    proof {
        lemma_quadrant_angle_props(ay as int, ax as int);
    }
    let top = cross_at(ax, ay, QUARTER_TURN);
    if top >= 0 {
        return QUARTER_TURN;
    }
    let mut lo: i64 = 0;
    let mut hi: i64 = QUARTER_TURN;
    proof {
        lemma_sin_quarter_props(0);
        lemma_sin_quarter_props(UNIT as int);
        assert(cross_spec(ax as int, ay as int, 0) == (ay as int) * (UNIT as int))
            by (nonlinear_arith)
            requires
                dir_x_spec(0) == UNIT as int,
                dir_y_spec(0) == 0,
                cross_spec(ax as int, ay as int, 0) == (ay as int) * dir_x_spec(0) - (ax as int)
                    * dir_y_spec(0),
        ;
        assert((ay as int) * (UNIT as int) >= 0) by (nonlinear_arith)
            requires
                ay as int >= 0,
        ;
    }
    while lo + 1 < hi
        invariant
            0 <= lo < hi <= QUARTER_TURN,
            0 <= ax <= UNIT,
            0 <= ay <= UNIT,
            cross_spec(ax as int, ay as int, lo as int) >= 0,
            cross_spec(ax as int, ay as int, hi as int) < 0,
            angle_search_spec(ax as int, ay as int, lo as int, hi as int) == angle_search_spec(
                ax as int,
                ay as int,
                0,
                QUARTER_TURN as int,
            ),
        decreases hi - lo,
    {
        let mid: i64 = lo + (hi - lo) / 2;
        let c = cross_at(ax, ay, mid);
        if c >= 0 {
            lo = mid;
        } else {
            hi = mid;
        }
    }
    lo
}

/// What the bisection guarantees: its angle lies in the quarter, the axes
/// come out exactly, and the cross product is still non-negative there.
pub proof fn lemma_quadrant_angle_props(ay: int, ax: int)
    requires
        0 <= ax <= UNIT,
        0 <= ay <= UNIT,
        ax > 0 || ay > 0,
    ensures
        0 <= quadrant_angle_spec(ay, ax) <= QUARTER_TURN,
        ay == 0 ==> quadrant_angle_spec(ay, ax) == 0,
        ax == 0 ==> quadrant_angle_spec(ay, ax) == QUARTER_TURN,
        cross_spec(ax, ay, quadrant_angle_spec(ay, ax)) >= 0,
        quadrant_angle_spec(ay, ax) < QUARTER_TURN ==> cross_spec(
            ax,
            ay,
            quadrant_angle_spec(ay, ax) + 1,
        ) < 0,
{
    let q = QUARTER_TURN as int;
    lemma_sin_quarter_props(0);
    lemma_sin_quarter_props(UNIT as int);
    if cross_spec(ax, ay, q) >= 0 {
        if ay == 0 {
            // impossible: with a zero vertical input the cross at the top
            // of the quarter is strictly negative
            lemma_sin_quarter_props(4 * q);
            assert(dir_y_spec(q) == UNIT as int);
            assert(0 * dir_x_spec(q) - ax * (UNIT as int) < 0) by (nonlinear_arith)
                requires
                    ax > 0,
            ;
        }
    } else {
        assert(dir_x_spec(0) == UNIT as int && dir_y_spec(0) == 0);
        assert(cross_spec(ax, ay, 0) == ay * (UNIT as int) - ax * 0);
        assert(ay * (UNIT as int) >= 0 && ax * 0 == 0) by (nonlinear_arith)
            requires
                ay >= 0,
        ;
        lemma_angle_search_props(ax, ay, 0, q);
        let r = angle_search_spec(ax, ay, 0, q);
        if ay == 0 {
            // a non-negative cross with a zero vertical input pins the
            // direction's vertical component to zero, and the diagonal
            // bound of the quarter wave pins the angle to zero with it
            lemma_sin_quarter_props(4 * r);
            assert(dir_y_spec(r) <= 0) by (nonlinear_arith)
                requires
                    0 * dir_x_spec(r) - ax * dir_y_spec(r) >= 0,
                    ax > 0,
            ;
            assert(4 * r <= dir_y_spec(r));
            assert(r == 0);
        }
        if ax == 0 {
            // impossible: with a zero horizontal input the cross at the top
            // of the quarter is exactly zero, so the early branch was taken
            assert(dir_x_spec(q) == sin_quarter_spec(0));
            assert(ay * 0 == 0 && 0 * dir_y_spec(q) == 0) by (nonlinear_arith);
        }
    }
}

/// The bisection stays inside its bracket and lands where the cross product
/// is still non-negative.
proof fn lemma_angle_search_props(ax: int, ay: int, lo: int, hi: int)
    requires
        0 <= lo < hi,
        cross_spec(ax, ay, lo) >= 0,
        cross_spec(ax, ay, hi) < 0,
    ensures
        lo <= angle_search_spec(ax, ay, lo, hi) < hi,
        cross_spec(ax, ay, angle_search_spec(ax, ay, lo, hi)) >= 0,
        cross_spec(ax, ay, angle_search_spec(ax, ay, lo, hi) + 1) < 0,
    decreases hi - lo,
{
    if hi - lo <= 1 {
    } else {
        let mid = lo + (hi - lo) / 2;
        if cross_spec(ax, ay, mid) >= 0 {
            lemma_angle_search_props(ax, ay, mid, hi);
        } else {
            lemma_angle_search_props(ax, ay, lo, mid);
        }
    }
}

/// The angle of the vector `(dx, dy)` as a micro-turn fraction in
/// `[0, UNIT)`, counted counter-clockwise from the positive x axis. The
/// zero vector maps to angle `0`. Each quadrant reuses the first-quadrant
/// angle of the vector's component magnitudes.
pub open spec fn atan2_turn_spec(dy: int, dx: int) -> int {
    let ax = if dx >= 0 {
        dx
    } else {
        -dx
    };
    let ay = if dy >= 0 {
        dy
    } else {
        -dy
    };
    if ax == 0 && ay == 0 {
        0
    } else {
        let a = quadrant_angle_spec(ay, ax);
        if dx >= 0 && dy >= 0 {
            a
        } else if dx < 0 && dy >= 0 {
            (HALF_TURN as int) - a
        } else if dx < 0 {
            (HALF_TURN as int) + a
        } else if a == 0 {
            0
        } else {
            (UNIT as int) - a
        }
    }
}

/// The full-circle angle lies in `[0, UNIT)`, is exact on the four
/// half-axes, and stays within the first quarter whenever the vector does.
pub proof fn lemma_atan2_turn_props(dy: int, dx: int)
    requires
        -UNIT <= dy <= UNIT,
        -UNIT <= dx <= UNIT,
    ensures
        0 <= atan2_turn_spec(dy, dx) < UNIT,
        dy == 0 && dx >= 0 ==> atan2_turn_spec(dy, dx) == 0,
        dx == 0 && dy > 0 ==> atan2_turn_spec(dy, dx) == QUARTER_TURN,
        dy == 0 && dx < 0 ==> atan2_turn_spec(dy, dx) == HALF_TURN,
        dx == 0 && dy < 0 ==> atan2_turn_spec(dy, dx) == 3 * QUARTER_TURN,
        dy >= 0 && dx >= 0 ==> atan2_turn_spec(dy, dx) <= QUARTER_TURN,
{
    let ax = if dx >= 0 {
        dx
    } else {
        -dx
    };
    let ay = if dy >= 0 {
        dy
    } else {
        -dy
    };
    if ax == 0 && ay == 0 {
    } else {
        lemma_quadrant_angle_props(ay, ax);
    }
}

/// The angle of `(dx, dy)` in micro-turns, in `[0, UNIT)`.
/// Exact on the four half-axes; the zero vector yields `0`.
pub fn atan2_turn(dy: i64, dx: i64) -> (r: i64)
    requires
        -UNIT <= dy <= UNIT,
        -UNIT <= dx <= UNIT,
    ensures
        r == atan2_turn_spec(dy as int, dx as int),
        0 <= r < UNIT,
{
    proof {
        lemma_atan2_turn_props(dy as int, dx as int);
    }
    let ax: i64 = if dx >= 0 {
        dx
    } else {
        -dx
    };
    let ay: i64 = if dy >= 0 {
        dy
    } else {
        -dy
    };
    if ax == 0 && ay == 0 {
        0
    } else {
        let a = quadrant_angle(ay, ax);
        if dx >= 0 && dy >= 0 {
            a
        } else if dx < 0 && dy >= 0 {
            HALF_TURN - a
        } else if dx < 0 {
            HALF_TURN + a
        } else if a == 0 {
            0
        } else {
            UNIT - a
        }
    }
}

/// The arcsine of the unit fraction `t`, normalized by a quarter turn so
/// that the result again lies in `[0, UNIT]`: `asin(t) / (pi / 2)`, computed
/// as four times the angle of the vector `(sqrt(1 - t^2), t)`.
pub open spec fn asin_unit_spec(t: int) -> int {
    4 * atan2_turn_spec(t, isqrt_spec((UNIT as int) * (UNIT as int) - t * t))
}

/// The normalized arcsine stays within `[0, UNIT]` and is exact at both
/// ends of the unit interval.
pub proof fn lemma_asin_unit_props(t: int)
    requires
        0 <= t <= UNIT,
    ensures
        0 <= asin_unit_spec(t) <= UNIT,
        t == 0 ==> asin_unit_spec(t) == 0,
        t == UNIT ==> asin_unit_spec(t) == UNIT,
{
    let x = (UNIT as int) * (UNIT as int) - t * t;
    assert(0 <= t * t <= (UNIT as int) * (UNIT as int)) by (nonlinear_arith)
        requires
            0 <= t <= UNIT as int,
    ;
    lemma_isqrt_within_unit(x);
    let s = isqrt_spec(x);
    lemma_atan2_turn_props(t, s);
    if t == 0 {
        assert(x == (UNIT as int) * (UNIT as int)) by (nonlinear_arith)
            requires
                t == 0,
                x == (UNIT as int) * (UNIT as int) - t * t,
        ;
    }
    if t == UNIT {
        assert(x == 0) by (nonlinear_arith)
            requires
                t == UNIT as int,
                x == (UNIT as int) * (UNIT as int) - t * t,
        ;
    }
}

/// Normalized arcsine of `t`, in `[0, UNIT]`; exact at both ends.
pub fn asin_unit(t: i64) -> (r: i64)
    requires
        0 <= t <= UNIT,
    ensures
        r == asin_unit_spec(t as int),
        0 <= r <= UNIT,
{
    proof {
        assert(0 <= t * t <= (UNIT as int) * (UNIT as int)) by (nonlinear_arith)
            requires
                0 <= t <= UNIT as int,
        ;
        lemma_asin_unit_props(t as int);
    }
    let s: i64 = isqrt(UNIT * UNIT - t * t);
    proof {
        lemma_isqrt_within_unit((UNIT as int) * (UNIT as int) - (t as int) * (t as int));
    }
    let a = atan2_turn(t, s);
    4 * a
}

} // verus!
