//! The pacing ("position") function family.
//!
//! A position function reparameterizes the interpolation parameter of a
//! palette: it maps a unit fraction `t` to another unit fraction, biasing
//! where along the anchor path the generated samples cluster. Every named
//! form maps `0` to `0` and `UNIT` to `UNIT` exactly, which is what makes a
//! palette's first and last colors coincide with its anchors.

use crate::fixed::{
    isqrt, isqrt_spec, lemma_div_le, lemma_isqrt_within_unit, lemma_mul_unit_bounds, mul_unit,
    mul_unit_spec, UNIT,
};
use crate::trig::{
    asin_unit, asin_unit_spec, lemma_asin_unit_props, lemma_sin_quarter_props, sin_quarter,
    sin_quarter_spec,
};
use vstd::arithmetic::div_mod::{
    lemma_div_is_ordered, lemma_div_multiples_vanish, lemma_div_of0,
};
use vstd::prelude::*;

verus! {

/// The fixed-point square of a unit fraction.
pub open spec fn unit_pow2_spec(t: int) -> int {
    mul_unit_spec(t, t)
}

/// The fixed-point cube of a unit fraction.
pub open spec fn unit_pow3_spec(t: int) -> int {
    mul_unit_spec(unit_pow2_spec(t), t)
}

/// The fixed-point fourth power of a unit fraction.
pub open spec fn unit_pow4_spec(t: int) -> int {
    mul_unit_spec(unit_pow2_spec(t), unit_pow2_spec(t))
}

/// The fixed-point fifth power of a unit fraction.
pub open spec fn unit_pow5_spec(t: int) -> int {
    mul_unit_spec(unit_pow4_spec(t), t)
}

/// Every fixed-point power of a unit fraction is again a unit fraction, at
/// most its base, and exact at both ends of the unit interval.
pub proof fn lemma_unit_pows(t: int)
    requires
        0 <= t <= UNIT,
    ensures
        0 <= unit_pow2_spec(t) <= t,
        0 <= unit_pow3_spec(t) <= t,
        0 <= unit_pow4_spec(t) <= t,
        0 <= unit_pow5_spec(t) <= t,
        t == 0 ==> unit_pow2_spec(t) == 0 && unit_pow3_spec(t) == 0 && unit_pow4_spec(t) == 0
            && unit_pow5_spec(t) == 0,
        t == UNIT ==> unit_pow2_spec(t) == UNIT && unit_pow3_spec(t) == UNIT && unit_pow4_spec(t)
            == UNIT && unit_pow5_spec(t) == UNIT,
{
    lemma_mul_unit_bounds(t, t);
    lemma_mul_unit_bounds(unit_pow2_spec(t), t);
    lemma_mul_unit_bounds(unit_pow2_spec(t), unit_pow2_spec(t));
    lemma_mul_unit_bounds(unit_pow4_spec(t), t);
}

/// The identity pacing: samples stay evenly spaced.
pub open spec fn linear_position_spec(t: int, reverse: bool) -> int {
    t
}

/// The family's "exponential" curve `t^2`, or its reflection
/// `1 - (1 - t)^2` in reverse.
pub open spec fn exponential_position_spec(t: int, reverse: bool) -> int {
    if reverse {
        (UNIT as int) - unit_pow2_spec((UNIT as int) - t)
    } else {
        unit_pow2_spec(t)
    }
}

/// The family's "quadratic" curve `t^3`, or its reflection in reverse.
pub open spec fn quadratic_position_spec(t: int, reverse: bool) -> int {
    if reverse {
        (UNIT as int) - unit_pow3_spec((UNIT as int) - t)
    } else {
        unit_pow3_spec(t)
    }
}

/// The family's "cubic" curve `t^4`, or its reflection in reverse.
pub open spec fn cubic_position_spec(t: int, reverse: bool) -> int {
    if reverse {
        (UNIT as int) - unit_pow4_spec((UNIT as int) - t)
    } else {
        unit_pow4_spec(t)
    }
}

/// The family's "quartic" curve `t^5`, or its reflection in reverse.
pub open spec fn quartic_position_spec(t: int, reverse: bool) -> int {
    if reverse {
        (UNIT as int) - unit_pow5_spec((UNIT as int) - t)
    } else {
        unit_pow5_spec(t)
    }
}

/// Sinusoidal pacing `sin(t * pi / 2)`: the quarter wave evaluated at `t`
/// itself, so no resolution is lost to angle quantization.
pub open spec fn sinusoidal_position_spec(t: int, reverse: bool) -> int {
    if reverse {
        (UNIT as int) - sin_quarter_spec((UNIT as int) - t)
    } else {
        sin_quarter_spec(t)
    }
}

/// Inverse-sine pacing `asin(t) / (pi / 2)`.
pub open spec fn asinusoidal_position_spec(t: int, reverse: bool) -> int {
    if reverse {
        (UNIT as int) - asin_unit_spec((UNIT as int) - t)
    } else {
        asin_unit_spec(t)
    }
}

/// Circular-arc pacing `1 - sqrt(1 - t)`, or `sqrt(1 - (1 - t)^2)` in
/// reverse.
pub open spec fn arc_position_spec(t: int, reverse: bool) -> int {
    if reverse {
        isqrt_spec((UNIT as int) * (UNIT as int) - ((UNIT as int) - t) * ((UNIT as int) - t))
    } else {
        (UNIT as int) - isqrt_spec(((UNIT as int) - t) * (UNIT as int))
    }
}

/// Hermite pacing `t^2 (3 - 2 t)`, computed with one fused division so the
/// curve is monotone; the same curve in both directions. Its point symmetry
/// `f(1 - t) = 1 - f(t)` holds up to the final floor: the two sides sum to
/// within one micro-unit of a whole unit.
pub open spec fn smooth_step_position_spec(t: int, reverse: bool) -> int {
    (t * t * (3 * (UNIT as int) - 2 * t)) / ((UNIT as int) * (UNIT as int))
}

/// The smooth-step curve never leaves the unit interval and meets its
/// endpoints exactly.
proof fn lemma_smooth_step_range(t: int)
    requires
        0 <= t <= UNIT,
    ensures
        0 <= smooth_step_position_spec(t, false) <= UNIT,
        t == 0 ==> smooth_step_position_spec(t, false) == 0,
        t == UNIT ==> smooth_step_position_spec(t, false) == UNIT,
{
    let u = UNIT as int;
    let n = t * t * (3 * u - 2 * t);
    assert(u * u * u - n == (u - t) * (u - t) * (u + 2 * t) && n >= 0) by (nonlinear_arith)
        requires
            n == t * t * (3 * u - 2 * t),
            0 <= t <= u,
    ;
    assert((u - t) * (u - t) * (u + 2 * t) >= 0) by (nonlinear_arith)
        requires
            0 <= t <= u,
    ;
    assert(n <= u * (u * u)) by (nonlinear_arith)
        requires
            u * u * u - n >= 0,
    ;
    lemma_div_le(n, u, u * u);
    if t == 0 {
        lemma_div_of0(u * u);
        assert(n == 0) by (nonlinear_arith)
            requires
                n == t * t * (3 * u - 2 * t),
                t == 0,
        ;
    }
    if t == UNIT {
        assert(n == u * (u * u)) by (nonlinear_arith)
            requires
                n == t * t * (3 * u - 2 * t),
                t == u,
        ;
        assert(u * (u * u) == (u * u) * u) by (nonlinear_arith);
        lemma_div_multiples_vanish(u, u * u);
    }
}

/// The smooth-step curve never steps backward: its fused numerator grows
/// with `t`, so the floored quotient does too.
pub proof fn lemma_smooth_step_monotone(a: int, b: int)
    requires
        0 <= a <= b <= UNIT,
    ensures
        smooth_step_position_spec(a, false) <= smooth_step_position_spec(b, false),
{
    let u = UNIT as int;
    let na = a * a * (3 * u - 2 * a);
    let nb = b * b * (3 * u - 2 * b);
    assert(nb - na == (b - a) * (3 * u * (a + b) - 2 * (a * a + a * b + b * b))
        && a * a + a * b + b * b <= u * (a + b) + u * (a + b)) by (nonlinear_arith)
        requires
            na == a * a * (3 * u - 2 * a),
            nb == b * b * (3 * u - 2 * b),
            0 <= a <= b <= u,
    ;
    assert(2 * (a * a + a * b + b * b) <= 3 * u * (a + b)) by (nonlinear_arith)
        requires
            0 <= a <= b <= u,
    ;
    assert(na <= nb) by (nonlinear_arith)
        requires
            nb - na == (b - a) * (3 * u * (a + b) - 2 * (a * a + a * b + b * b)),
            2 * (a * a + a * b + b * b) <= 3 * u * (a + b),
            0 <= a <= b,
    ;
    assert(na >= 0) by (nonlinear_arith)
        requires
            0 <= a <= u,
            na == a * a * (3 * u - 2 * a),
    ;
    lemma_div_is_ordered(na, nb, u * u);
}

/// Which named pacing curve an axis follows.
#[derive(Clone, Copy, Debug, PartialEq, Eq, Structural)]
pub enum PositionKind {
    Linear,
    Exponential,
    Quadratic,
    Cubic,
    Quartic,
    Sinusoidal,
    Asinusoidal,
    Arc,
    SmoothStep,
}

/// The pacing curve `kind` evaluated at `t`.
pub open spec fn position_spec(kind: PositionKind, t: int, reverse: bool) -> int {
    match kind {
        PositionKind::Linear => linear_position_spec(t, reverse),
        PositionKind::Exponential => exponential_position_spec(t, reverse),
        PositionKind::Quadratic => quadratic_position_spec(t, reverse),
        PositionKind::Cubic => cubic_position_spec(t, reverse),
        PositionKind::Quartic => quartic_position_spec(t, reverse),
        PositionKind::Sinusoidal => sinusoidal_position_spec(t, reverse),
        PositionKind::Asinusoidal => asinusoidal_position_spec(t, reverse),
        PositionKind::Arc => arc_position_spec(t, reverse),
        PositionKind::SmoothStep => smooth_step_position_spec(t, reverse),
    }
}

/// Every named pacing curve maps the unit interval into itself.
pub proof fn lemma_position_range(kind: PositionKind, t: int, reverse: bool)
    requires
        0 <= t <= UNIT,
    ensures
        0 <= position_spec(kind, t, reverse) <= UNIT,
{
    let u = UNIT as int;
    lemma_unit_pows(t);
    lemma_unit_pows(u - t);
    lemma_sin_quarter_props(t);
    lemma_sin_quarter_props(u - t);
    lemma_asin_unit_props(t);
    lemma_asin_unit_props(u - t);
    lemma_isqrt_within_unit((u - t) * u);
    assert(0 <= (u - t) * (u - t) <= u * u) by (nonlinear_arith)
        requires
            0 <= t <= u,
    ;
    lemma_isqrt_within_unit(u * u - (u - t) * (u - t));
    lemma_smooth_step_range(t);
}

/// Boundary exactness: every named pacing curve, forward or reverse, maps
/// `0` to `0` and a whole unit to a whole unit. This is the law that pins a
/// generated palette's first and last colors to its anchors.
pub proof fn lemma_position_boundary(kind: PositionKind, reverse: bool)
    ensures
        position_spec(kind, 0, reverse) == 0,
        position_spec(kind, UNIT as int, reverse) == UNIT,
{
    let u = UNIT as int;
    lemma_unit_pows(0);
    lemma_unit_pows(u);
    lemma_sin_quarter_props(0);
    lemma_sin_quarter_props(u);
    lemma_asin_unit_props(0);
    lemma_asin_unit_props(u);
    lemma_isqrt_within_unit(u * u);
    lemma_isqrt_within_unit(0);
    assert((u - 0) * u == u * u && (u - u) * u == 0) by (nonlinear_arith);
    assert(u * u - (u - u) * (u - u) == u * u && u * u - (u - 0) * (u - 0) == 0)
        by (nonlinear_arith);
    lemma_smooth_step_range(0);
    lemma_smooth_step_range(u);
}

/// The pacing curve `kind` evaluated at the unit fraction `t`.
pub fn position_at(kind: PositionKind, t: i64, reverse: bool) -> (r: i64)
    requires
        0 <= t <= UNIT,
    ensures
        r == position_spec(kind, t as int, reverse),
        0 <= r <= UNIT,
{
    proof {
        lemma_position_range(kind, t as int, reverse);
    }
    match kind {
        PositionKind::Linear => linear_position(t, reverse),
        PositionKind::Exponential => exponential_position(t, reverse),
        PositionKind::Quadratic => quadratic_position(t, reverse),
        PositionKind::Cubic => cubic_position(t, reverse),
        PositionKind::Quartic => quartic_position(t, reverse),
        PositionKind::Sinusoidal => sinusoidal_position(t, reverse),
        PositionKind::Asinusoidal => asinusoidal_position(t, reverse),
        PositionKind::Arc => arc_position(t, reverse),
        PositionKind::SmoothStep => smooth_step_position(t, reverse),
    }
}

/// Evenly paced interpolation: `t` itself.
pub fn linear_position(t: i64, _reverse: bool) -> (r: i64)
    requires
        0 <= t <= UNIT,
    ensures
        r == linear_position_spec(t as int, _reverse),
        0 <= r <= UNIT,
{
    t
}

/// The family's "exponential" curve `t^2`, clustering samples near the
/// start (or near the end when reversed).
pub fn exponential_position(t: i64, reverse: bool) -> (r: i64)
    requires
        0 <= t <= UNIT,
    ensures
        r == exponential_position_spec(t as int, reverse),
        0 <= r <= UNIT,
{
    proof {
        lemma_unit_pows(t as int);
        lemma_unit_pows(UNIT as int - t);
    }
    if reverse {
        UNIT - mul_unit(UNIT - t, UNIT - t)
    } else {
        mul_unit(t, t)
    }
}

/// The family's "quadratic" curve `t^3`.
pub fn quadratic_position(t: i64, reverse: bool) -> (r: i64)
    requires
        0 <= t <= UNIT,
    ensures
        r == quadratic_position_spec(t as int, reverse),
        0 <= r <= UNIT,
{
    proof {
        lemma_unit_pows(t as int);
        lemma_unit_pows(UNIT as int - t);
    }
    if reverse {
        let s: i64 = UNIT - t;
        let p2 = mul_unit(s, s);
        UNIT - mul_unit(p2, s)
    } else {
        let p2 = mul_unit(t, t);
        mul_unit(p2, t)
    }
}

/// The family's "cubic" curve `t^4`.
pub fn cubic_position(t: i64, reverse: bool) -> (r: i64)
    requires
        0 <= t <= UNIT,
    ensures
        r == cubic_position_spec(t as int, reverse),
        0 <= r <= UNIT,
{
    proof {
        lemma_unit_pows(t as int);
        lemma_unit_pows(UNIT as int - t);
    }
    if reverse {
        let s: i64 = UNIT - t;
        let p2 = mul_unit(s, s);
        UNIT - mul_unit(p2, p2)
    } else {
        let p2 = mul_unit(t, t);
        mul_unit(p2, p2)
    }
}

/// The family's "quartic" curve `t^5`.
pub fn quartic_position(t: i64, reverse: bool) -> (r: i64)
    requires
        0 <= t <= UNIT,
    ensures
        r == quartic_position_spec(t as int, reverse),
        0 <= r <= UNIT,
{
    proof {
        lemma_unit_pows(t as int);
        lemma_unit_pows(UNIT as int - t);
    }
    if reverse {
        let s: i64 = UNIT - t;
        let p2 = mul_unit(s, s);
        let p4 = mul_unit(p2, p2);
        UNIT - mul_unit(p4, s)
    } else {
        let p2 = mul_unit(t, t);
        let p4 = mul_unit(p2, p2);
        mul_unit(p4, t)
    }
}

/// Sinusoidal pacing along the first quarter of the sine wave. The forward
/// curve never drops below the diagonal and the reverse curve never rises
/// above it, so sinusoidal pacing always leans the samples the same way.
pub fn sinusoidal_position(t: i64, reverse: bool) -> (r: i64)
    requires
        0 <= t <= UNIT,
    ensures
        r == sinusoidal_position_spec(t as int, reverse),
        0 <= r <= UNIT,
        !reverse ==> t <= r,
        reverse ==> r <= t,
{
    proof {
        lemma_sin_quarter_props(t as int);
        lemma_sin_quarter_props(UNIT as int - t);
    }
    if reverse {
        UNIT - sin_quarter(UNIT - t)
    } else {
        sin_quarter(t)
    }
}

/// Inverse-sine pacing, clustering samples near both ends.
pub fn asinusoidal_position(t: i64, reverse: bool) -> (r: i64)
    requires
        0 <= t <= UNIT,
    ensures
        r == asinusoidal_position_spec(t as int, reverse),
        0 <= r <= UNIT,
{
    if reverse {
        UNIT - asin_unit(UNIT - t)
    } else {
        asin_unit(t)
    }
}

/// Circular-arc pacing.
pub fn arc_position(t: i64, reverse: bool) -> (r: i64)
    requires
        0 <= t <= UNIT,
    ensures
        r == arc_position_spec(t as int, reverse),
        0 <= r <= UNIT,
{
    if reverse {
        let d: i64 = UNIT - t;
        proof {
            assert(0 <= d * d <= (UNIT as int) * (UNIT as int)) by (nonlinear_arith)
                requires
                    0 <= d <= UNIT as int,
            ;
            lemma_isqrt_within_unit((UNIT as int) * (UNIT as int) - (d as int) * (d as int));
        }
        isqrt(UNIT * UNIT - d * d)
    } else {
        proof {
            lemma_isqrt_within_unit((UNIT as int - t) * (UNIT as int));
        }
        UNIT - isqrt((UNIT - t) * UNIT)
    }
}

/// Hermite smooth-step pacing; `reverse` has no effect on this curve.
pub fn smooth_step_position(t: i64, _reverse: bool) -> (r: i64)
    requires
        0 <= t <= UNIT,
    ensures
        r == smooth_step_position_spec(t as int, _reverse),
        0 <= r <= UNIT,
{
    proof {
        lemma_smooth_step_range(t as int);
        assert(0 <= (t as int) * (t as int) <= 1_000_000_000_000 && 0 <= (t as int) * (t as int)
            * (3 * (UNIT as int) - 2 * t) <= 3_000_000_000_000_000_000) by (nonlinear_arith)
            requires
                0 <= t as int <= 1_000_000,
        ;
    }
    (t * t * (3 * UNIT - 2 * t)) / (UNIT * UNIT)
}

/// The caller's choice of pacing: one of the nine named curves applied to
/// all three planar axes, or a custom combination assigning a named curve
/// to each axis separately.
#[derive(Clone, Copy, Debug, PartialEq, Eq, Structural)]
pub enum PosFunctions {
    LinearPosition,
    ExponentialPosition,
    QuadraticPosition,
    CubicPosition,
    QuarticPosition,
    SinusoidalPosition,
    AsinusoidalPosition,
    ArcPosition,
    SmoothStepPosition,
    Custom { fx: PositionKind, fy: PositionKind, fz: PositionKind },
}

/// The per-axis pacing curves that a [`PosFunctions`] choice denotes,
/// in axis order `(x, y, z)`.
pub open spec fn axis_kinds_spec(f: PosFunctions) -> (PositionKind, PositionKind, PositionKind) {
    match f {
        PosFunctions::LinearPosition => (
            PositionKind::Linear,
            PositionKind::Linear,
            PositionKind::Linear,
        ),
        PosFunctions::ExponentialPosition => (
            PositionKind::Exponential,
            PositionKind::Exponential,
            PositionKind::Exponential,
        ),
        PosFunctions::QuadraticPosition => (
            PositionKind::Quadratic,
            PositionKind::Quadratic,
            PositionKind::Quadratic,
        ),
        PosFunctions::CubicPosition => (
            PositionKind::Cubic,
            PositionKind::Cubic,
            PositionKind::Cubic,
        ),
        PosFunctions::QuarticPosition => (
            PositionKind::Quartic,
            PositionKind::Quartic,
            PositionKind::Quartic,
        ),
        PosFunctions::SinusoidalPosition => (
            PositionKind::Sinusoidal,
            PositionKind::Sinusoidal,
            PositionKind::Sinusoidal,
        ),
        PosFunctions::AsinusoidalPosition => (
            PositionKind::Asinusoidal,
            PositionKind::Asinusoidal,
            PositionKind::Asinusoidal,
        ),
        PosFunctions::ArcPosition => (PositionKind::Arc, PositionKind::Arc, PositionKind::Arc),
        PosFunctions::SmoothStepPosition => (
            PositionKind::SmoothStep,
            PositionKind::SmoothStep,
            PositionKind::SmoothStep,
        ),
        PosFunctions::Custom { fx, fy, fz } => (fx, fy, fz),
    }
}

/// Resolves a pacing choice to its three per-axis curves.
pub fn axis_kinds(f: &PosFunctions) -> (r: (PositionKind, PositionKind, PositionKind))
    ensures
        r == axis_kinds_spec(*f),
{
    match f {
        PosFunctions::LinearPosition => (
            PositionKind::Linear,
            PositionKind::Linear,
            PositionKind::Linear,
        ),
        PosFunctions::ExponentialPosition => (
            PositionKind::Exponential,
            PositionKind::Exponential,
            PositionKind::Exponential,
        ),
        PosFunctions::QuadraticPosition => (
            PositionKind::Quadratic,
            PositionKind::Quadratic,
            PositionKind::Quadratic,
        ),
        PosFunctions::CubicPosition => (
            PositionKind::Cubic,
            PositionKind::Cubic,
            PositionKind::Cubic,
        ),
        PosFunctions::QuarticPosition => (
            PositionKind::Quartic,
            PositionKind::Quartic,
            PositionKind::Quartic,
        ),
        PosFunctions::SinusoidalPosition => (
            PositionKind::Sinusoidal,
            PositionKind::Sinusoidal,
            PositionKind::Sinusoidal,
        ),
        PosFunctions::AsinusoidalPosition => (
            PositionKind::Asinusoidal,
            PositionKind::Asinusoidal,
            PositionKind::Asinusoidal,
        ),
        PosFunctions::ArcPosition => (PositionKind::Arc, PositionKind::Arc, PositionKind::Arc),
        PosFunctions::SmoothStepPosition => (
            PositionKind::SmoothStep,
            PositionKind::SmoothStep,
            PositionKind::SmoothStep,
        ),
        PosFunctions::Custom { fx, fy, fz } => (*fx, *fy, *fz),
    }
}

} // verus!
