//! Deterministic palette generation over a polar HSL space.
//!
//! A palette interpolates between two (or three) randomly drawn anchor
//! colors. Interpolation does not happen on hue/saturation/lightness
//! directly: each anchor is first mapped into an auxiliary planar space
//! where the distance from the center `(0.5, 0.5)` encodes lightness, the
//! polar angle encodes hue, and the third coordinate carries saturation.
//! Straight lines in that space then blend the anchors the way the palette
//! design intends, and each sample is mapped back to a color at the end.
//!
//! Hue is carried in micro-degrees (`360 * UNIT` to the full circle) while
//! it is an angle, and as a micro-turn fraction in `[0, UNIT)` in emitted
//! colors; all other channels are micro-unit fractions.

use crate::fixed::{
    isqrt, isqrt_spec, lemma_div_le, lemma_isqrt_spec_correct, lemma_isqrt_unique,
    lemma_lerp_bounds, lemma_scale_signed_bounds, lemma_scale_signed_err, lerp, lerp_spec,
    scale_signed, scale_signed_spec, HALF_UNIT, UNIT,
};
use crate::pacing::{axis_kinds, axis_kinds_spec, lemma_position_boundary, lemma_position_range,
    position_at, position_spec, PosFunctions, PositionKind};
use crate::random_source::UniformSource;
use crate::trig::{
    atan2_turn, atan2_turn_spec, cos_turn, cos_turn_spec, lemma_atan2_turn_props,
    lemma_cos_turn_props, lemma_sin_cos_norm, lemma_sin_turn_props, sin_turn, sin_turn_spec,
};
use vstd::arithmetic::div_mod::{
    lemma_div_is_ordered, lemma_div_multiples_vanish, lemma_div_of0, lemma_div_pos_is_pos,
    lemma_mod_bound, lemma_multiply_divide_lt,
};
use vstd::arithmetic::mul::lemma_mul_inequality;
use vstd::prelude::*;

verus! {

/// One full circle of hue, in micro-degrees.
pub const FULL_CIRCLE: i64 = 360 * UNIT;

/// A color in the polar HSL model: hue in micro-degrees, saturation and
/// lightness as micro-unit fractions.
#[derive(Clone, Copy, Debug, PartialEq, Eq, Structural)]
pub struct ColorPoint {
    /// Hue angle in micro-degrees, normalized into `[0, FULL_CIRCLE)`.
    pub hue: i64,
    /// Saturation in `[0, UNIT]`.
    pub sat: i64,
    /// Lightness in `[0, UNIT]`.
    pub light: i64,
}

impl ColorPoint {
    /// All three channels sit in their documented ranges.
    pub open spec fn wf(self) -> bool {
        &&& 0 <= self.hue < FULL_CIRCLE
        &&& 0 <= self.sat <= UNIT
        &&& 0 <= self.light <= UNIT
    }
}

/// A point of the auxiliary planar space used for interpolation.
#[derive(Clone, Copy, Debug, PartialEq, Eq, Structural)]
pub struct PlanarPoint {
    /// Horizontal coordinate in `[0, UNIT]`.
    pub x: i64,
    /// Vertical coordinate in `[0, UNIT]`.
    pub y: i64,
    /// Saturation carried through unchanged, in `[0, UNIT]`.
    pub z: i64,
}

impl PlanarPoint {
    /// All three coordinates sit in the unit cube.
    pub open spec fn wf(self) -> bool {
        &&& 0 <= self.x <= UNIT
        &&& 0 <= self.y <= UNIT
        &&& 0 <= self.z <= UNIT
    }
}

/// An emitted color: hue as a micro-turn fraction in `[0, UNIT)`, the other
/// channels as micro-unit fractions, and a fixed opaque alpha.
#[derive(Clone, Copy, Debug, PartialEq, Eq, Structural)]
pub struct Hsla {
    /// Hue as a fraction of a full rotation, always in `[0, UNIT)`.
    pub hue: i64,
    /// Saturation in `[0, UNIT]`.
    pub sat: i64,
    /// Lightness, never clamped: pacing the axes with different curves can
    /// push a sample off the anchor segment and its lightness slightly past
    /// `UNIT` (never beyond twice the unit square's half-diagonal).
    pub light: i64,
    /// Opacity; emitted colors are fully opaque (`UNIT`).
    pub alpha: i64,
}

/// Why palette generation can be refused.
#[derive(Clone, Copy, Debug, PartialEq, Eq, Structural)]
pub enum PaletteError {
    /// Fewer than two samples were requested: a palette needs both of its
    /// anchor endpoints.
    InvalidLength,
}

/// The horizontal planar coordinate of a color: the center offset by the
/// lightness radius along the cosine of the hue angle.
pub open spec fn planar_x_spec(c: ColorPoint) -> int {
    (HALF_UNIT as int) + scale_signed_spec(
        (c.light as int) / 2,
        cos_turn_spec((c.hue as int) / 360),
    )
}

/// The vertical planar coordinate of a color: the center offset by the
/// lightness radius along the sine of the hue angle.
pub open spec fn planar_y_spec(c: ColorPoint) -> int {
    (HALF_UNIT as int) + scale_signed_spec(
        (c.light as int) / 2,
        sin_turn_spec((c.hue as int) / 360),
    )
}

/// The planar image of a color.
pub open spec fn point_of_color_spec(c: ColorPoint) -> PlanarPoint {
    PlanarPoint { x: planar_x_spec(c) as i64, y: planar_y_spec(c) as i64, z: c.sat }
}

/// A well-formed color maps into the unit cube, and its planar coordinates
/// are the stated center offsets.
pub proof fn lemma_point_of_color_props(c: ColorPoint)
    requires
        c.wf(),
    ensures
        point_of_color_spec(c).wf(),
        point_of_color_spec(c).x == planar_x_spec(c),
        point_of_color_spec(c).y == planar_y_spec(c),
        point_of_color_spec(c).z == c.sat,
{
    let turn = (c.hue as int) / 360;
    let dist = (c.light as int) / 2;
    lemma_div_pos_is_pos(c.hue as int, 360);
    lemma_multiply_divide_lt(c.hue as int, 360, UNIT as int);
    lemma_cos_turn_props(turn);
    lemma_sin_turn_props(turn);
    lemma_scale_signed_bounds(dist, cos_turn_spec(turn));
    lemma_scale_signed_bounds(dist, sin_turn_spec(turn));
}

/// Converts a color to its planar interpolation point.
pub fn hsl_to_point(hsl: &ColorPoint) -> (p: PlanarPoint)
    requires
        hsl.wf(),
    ensures
        p == point_of_color_spec(*hsl),
        p.wf(),
{
    proof {
        lemma_point_of_color_props(*hsl);
    }
    let turn: i64 = hsl.hue / 360;
    let dist: i64 = hsl.light / 2;
    let x: i64 = HALF_UNIT + scale_signed(dist, cos_turn(turn));
    let y: i64 = HALF_UNIT + scale_signed(dist, sin_turn(turn));
    PlanarPoint { x, y, z: hsl.sat }
}

/// The hue angle a planar point maps back to, in micro-degrees.
pub open spec fn hsl_hue_spec(p: PlanarPoint) -> int {
    360 * atan2_turn_spec(p.y - (HALF_UNIT as int), p.x - (HALF_UNIT as int))
}

/// The lightness a planar point maps back to: twice its distance from the
/// center.
pub open spec fn hsl_light_spec(p: PlanarPoint) -> int {
    let dx = p.x - (HALF_UNIT as int);
    let dy = p.y - (HALF_UNIT as int);
    2 * isqrt_spec(dx * dx + dy * dy)
}

/// The color a planar point maps back to.
pub open spec fn color_of_point_spec(p: PlanarPoint) -> ColorPoint {
    ColorPoint { hue: hsl_hue_spec(p) as i64, sat: p.z, light: hsl_light_spec(p) as i64 }
}

/// The inverse mapping keeps hue inside the circle and bounds lightness by
/// the unit square's diagonal; saturation passes through unchanged.
pub proof fn lemma_color_of_point_props(p: PlanarPoint)
    requires
        p.wf(),
    ensures
        color_of_point_spec(p).hue == hsl_hue_spec(p),
        color_of_point_spec(p).light == hsl_light_spec(p),
        color_of_point_spec(p).sat == p.z,
        0 <= hsl_hue_spec(p) < FULL_CIRCLE,
        hsl_hue_spec(p) % 360 == 0,
        0 <= hsl_light_spec(p) <= 1_414_212,
{
    let dx = p.x - (HALF_UNIT as int);
    let dy = p.y - (HALF_UNIT as int);
    lemma_atan2_turn_props(dy, dx);
    assert(360 * atan2_turn_spec(dy, dx) % 360 == 0) by (nonlinear_arith);
    assert(0 <= dx * dx + dy * dy <= 500_000_000_000) by (nonlinear_arith)
        requires
            -500_000 <= dx <= 500_000,
            -500_000 <= dy <= 500_000,
    ;
    lemma_isqrt_spec_correct(dx * dx + dy * dy);
    let s = isqrt_spec(dx * dx + dy * dy);
    assert(s <= 707_106) by (nonlinear_arith)
        requires
            0 <= s,
            s * s <= 500_000_000_000,
    ;
}

/// Converts a planar point back to a color. The center itself has no
/// well-defined hue; it comes back with hue `0`, the angle the planar
/// angle function assigns to the zero vector.
pub fn point_to_hsl(point: &PlanarPoint) -> (c: ColorPoint)
    requires
        point.wf(),
    ensures
        c == color_of_point_spec(*point),
        0 <= c.hue < FULL_CIRCLE,
        c.sat == point.z,
        0 <= c.light <= 1_414_212,
{
    proof {
        lemma_color_of_point_props(*point);
        assert(0 <= (point.x - HALF_UNIT) * (point.x - HALF_UNIT) <= 250_000_000_000)
            by (nonlinear_arith)
            requires
                0 <= point.x <= UNIT,
        ;
        assert(0 <= (point.y - HALF_UNIT) * (point.y - HALF_UNIT) <= 250_000_000_000)
            by (nonlinear_arith)
            requires
                0 <= point.y <= UNIT,
        ;
    }
    let dx: i64 = point.x - HALF_UNIT;
    let dy: i64 = point.y - HALF_UNIT;
    let hue: i64 = 360 * atan2_turn(dy, dx);
    let light: i64 = 2 * isqrt(dx * dx + dy * dy);
    ColorPoint { hue, sat: point.z, light }
}

/// The state of a source after `n` draws.
pub open spec fn source_after(s: UniformSource, n: nat) -> UniformSource
    decreases n,
{
    if n == 0 {
        s
    } else {
        source_after(s, (n - 1) as nat).step_spec()
    }
}

/// The `n`-th upcoming draw of a source, counting from zero.
pub open spec fn draw_n(s: UniformSource, n: nat) -> int {
    source_after(s, n).peek_spec()
}

/// However many draws have been taken, a well-formed source stays well
/// formed and every draw is a unit fraction.
pub proof fn lemma_source_after_props(s: UniformSource, n: nat)
    requires
        s.wf(),
    ensures
        source_after(s, n).wf(),
        0 <= draw_n(s, n) < UNIT,
    decreases n,
{
    if n == 0 {
        s.lemma_step_props();
    } else {
        lemma_source_after_props(s, (n - 1) as nat);
        source_after(s, (n - 1) as nat).lemma_step_props();
        source_after(s, n).lemma_step_props();
    }
}

/// A hue one step around the circle from `prev`: offset by sixty degrees
/// plus the drawn fraction of another half circle, wrapped around.
pub open spec fn offset_hue_spec(prev: int, draw: int) -> int {
    (prev + 60 * (UNIT as int) + 180 * draw) % (FULL_CIRCLE as int)
}

/// The wrapped hue stays inside the circle.
pub proof fn lemma_offset_hue_range(prev: int, draw: int)
    ensures
        0 <= offset_hue_spec(prev, draw) < FULL_CIRCLE,
{
    lemma_mod_bound(prev + 60 * (UNIT as int) + 180 * draw, FULL_CIRCLE as int);
}

/// Builds the two anchors of a pair palette. The first anchor takes the
/// caller's hue and the first saturation and lightness; the second anchor's
/// hue is drawn from the source, offset from the first by sixty degrees plus
/// a uniform share of another half circle.
pub fn random_hsl_pair(
    start_hue: i64,
    saturations: (i64, i64),
    lightnesses: (i64, i64),
    source: &mut UniformSource,
) -> (anchors: (ColorPoint, ColorPoint))
    requires
        old(source).wf(),
        0 <= start_hue < FULL_CIRCLE,
        0 <= saturations.0 <= UNIT,
        0 <= saturations.1 <= UNIT,
        0 <= lightnesses.0 <= UNIT,
        0 <= lightnesses.1 <= UNIT,
    ensures
        final(source).wf(),
        *final(source) == old(source).step_spec(),
        anchors.0 == (ColorPoint {
            hue: start_hue,
            sat: saturations.0,
            light: lightnesses.0,
        }),
        anchors.1.hue == offset_hue_spec(start_hue as int, old(source).peek_spec()),
        anchors.1.sat == saturations.1,
        anchors.1.light == lightnesses.1,
        anchors.0.wf(),
        anchors.1.wf(),
{
    let d = source.next_unit();
    proof {
        lemma_offset_hue_range(start_hue as int, d as int);
    }
    let hue1: i64 = (start_hue + 60 * UNIT + 180 * d) % FULL_CIRCLE;
    (
        ColorPoint { hue: start_hue, sat: saturations.0, light: lightnesses.0 },
        ColorPoint { hue: hue1, sat: saturations.1, light: lightnesses.1 },
    )
}

/// Builds the three anchors of a triple palette: as with a pair, but each
/// later anchor's hue is offset from the anchor before it by sixty degrees
/// plus a fresh uniform share of another half circle.
pub fn random_hsl_triple(
    start_hue: i64,
    saturations: (i64, i64, i64),
    lightnesses: (i64, i64, i64),
    source: &mut UniformSource,
) -> (anchors: (ColorPoint, ColorPoint, ColorPoint))
    requires
        old(source).wf(),
        0 <= start_hue < FULL_CIRCLE,
        0 <= saturations.0 <= UNIT,
        0 <= saturations.1 <= UNIT,
        0 <= saturations.2 <= UNIT,
        0 <= lightnesses.0 <= UNIT,
        0 <= lightnesses.1 <= UNIT,
        0 <= lightnesses.2 <= UNIT,
    ensures
        final(source).wf(),
        *final(source) == old(source).step_spec().step_spec(),
        anchors.0 == (ColorPoint {
            hue: start_hue,
            sat: saturations.0,
            light: lightnesses.0,
        }),
        anchors.1.hue == offset_hue_spec(start_hue as int, old(source).peek_spec()),
        anchors.1.sat == saturations.1,
        anchors.1.light == lightnesses.1,
        anchors.2.hue == offset_hue_spec(
            anchors.1.hue as int,
            old(source).step_spec().peek_spec(),
        ),
        anchors.2.sat == saturations.2,
        anchors.2.light == lightnesses.2,
        anchors.0.wf(),
        anchors.1.wf(),
        anchors.2.wf(),
{
    let d1 = source.next_unit();
    proof {
        lemma_offset_hue_range(start_hue as int, d1 as int);
    }
    let hue1: i64 = (start_hue + 60 * UNIT + 180 * d1) % FULL_CIRCLE;
    let d2 = source.next_unit();
    proof {
        lemma_offset_hue_range(hue1 as int, d2 as int);
    }
    let hue2: i64 = (hue1 + 60 * UNIT + 180 * d2) % FULL_CIRCLE;
    (
        ColorPoint { hue: start_hue, sat: saturations.0, light: lightnesses.0 },
        ColorPoint { hue: hue1, sat: saturations.1, light: lightnesses.1 },
        ColorPoint { hue: hue2, sat: saturations.2, light: lightnesses.2 },
    )
}

/// The interpolation parameter of sample `i` out of `n`: the unit interval
/// split into `n - 1` even steps.
pub open spec fn sample_t_spec(n: int, i: int) -> int {
    (i * (UNIT as int)) / (n - 1)
}

/// Sample parameters walk the unit interval from end to end exactly.
pub proof fn lemma_sample_t_props(n: int, i: int)
    requires
        2 <= n,
        0 <= i < n,
    ensures
        0 <= sample_t_spec(n, i) <= UNIT,
        i == 0 ==> sample_t_spec(n, i) == 0,
        i == n - 1 ==> sample_t_spec(n, i) == UNIT,
{
    let u = UNIT as int;
    assert(0 <= i * u <= u * (n - 1)) by (nonlinear_arith)
        requires
            0 <= i <= n - 1,
            u > 0,
    ;
    lemma_div_le(i * u, u, n - 1);
    if i == 0 {
        assert(i * u == 0) by (nonlinear_arith)
            requires
                i == 0,
        ;
        lemma_div_of0(n - 1);
    }
    if i == n - 1 {
        assert(i * u == (n - 1) * u) by (nonlinear_arith)
            requires
                i == n - 1,
        ;
        lemma_div_multiples_vanish(u, n - 1);
    }
}

/// Sample parameters ascend with the index: a palette's colors come out in
/// the order of their interpolation parameters.
pub proof fn lemma_sample_t_monotone(n: int, i: int, j: int)
    requires
        2 <= n,
        0 <= i <= j < n,
    ensures
        sample_t_spec(n, i) <= sample_t_spec(n, j),
{
    lemma_mul_inequality(i, j, UNIT as int);
    lemma_div_is_ordered(i * (UNIT as int), j * (UNIT as int), n - 1);
}

/// Sample `i` of the paced line from `p1` to `p2`: the shared parameter is
/// run through each axis's pacing curve separately, then each coordinate is
/// interpolated linearly.
pub open spec fn line_point_spec(
    p1: PlanarPoint,
    p2: PlanarPoint,
    kx: PositionKind,
    ky: PositionKind,
    kz: PositionKind,
    invert: bool,
    n: int,
    i: int,
) -> PlanarPoint {
    let t = sample_t_spec(n, i);
    PlanarPoint {
        x: lerp_spec(p1.x as int, p2.x as int, position_spec(kx, t, invert)) as i64,
        y: lerp_spec(p1.y as int, p2.y as int, position_spec(ky, t, invert)) as i64,
        z: lerp_spec(p1.z as int, p2.z as int, position_spec(kz, t, invert)) as i64,
    }
}

/// Line samples of well-formed endpoints stay in the unit cube, and each
/// coordinate is exactly the paced interpolant.
pub proof fn lemma_line_point_props(
    p1: PlanarPoint,
    p2: PlanarPoint,
    kx: PositionKind,
    ky: PositionKind,
    kz: PositionKind,
    invert: bool,
    n: int,
    i: int,
)
    requires
        p1.wf(),
        p2.wf(),
        2 <= n,
        0 <= i < n,
    ensures
        ({
            let p = line_point_spec(p1, p2, kx, ky, kz, invert, n, i);
            let t = sample_t_spec(n, i);
            &&& p.wf()
            &&& p.x == lerp_spec(p1.x as int, p2.x as int, position_spec(kx, t, invert))
            &&& p.y == lerp_spec(p1.y as int, p2.y as int, position_spec(ky, t, invert))
            &&& p.z == lerp_spec(p1.z as int, p2.z as int, position_spec(kz, t, invert))
        }),
{
    let t = sample_t_spec(n, i);
    lemma_sample_t_props(n, i);
    lemma_position_range(kx, t, invert);
    lemma_position_range(ky, t, invert);
    lemma_position_range(kz, t, invert);
    lemma_lerp_bounds(p1.x as int, p2.x as int, position_spec(kx, t, invert));
    lemma_lerp_bounds(p1.y as int, p2.y as int, position_spec(ky, t, invert));
    lemma_lerp_bounds(p1.z as int, p2.z as int, position_spec(kz, t, invert));
}

/// Lays `num_points` paced samples along the line from `p1` to `p2`,
/// pacing each axis with its own curve.
pub fn vectors_on_line(
    p1: &PlanarPoint,
    p2: &PlanarPoint,
    num_points: usize,
    invert: bool,
    fx: PositionKind,
    fy: PositionKind,
    fz: PositionKind,
) -> (points: Vec<PlanarPoint>)
    requires
        p1.wf(),
        p2.wf(),
        2 <= num_points <= 0xffff_ffff,
    ensures
        points@.len() == num_points,
        forall|i: int|
            0 <= i < num_points ==> #[trigger] points@[i] == line_point_spec(
                *p1,
                *p2,
                fx,
                fy,
                fz,
                invert,
                num_points as int,
                i,
            ),
        forall|i: int| 0 <= i < num_points ==> (#[trigger] points@[i]).wf(),
{
    let mut points: Vec<PlanarPoint> = Vec::new();
    let mut i: usize = 0;
    while i < num_points
        invariant
            p1.wf(),
            p2.wf(),
            2 <= num_points <= 0xffff_ffff,
            0 <= i <= num_points,
            points@.len() == i,
            forall|j: int|
                0 <= j < i ==> #[trigger] points@[j] == line_point_spec(
                    *p1,
                    *p2,
                    fx,
                    fy,
                    fz,
                    invert,
                    num_points as int,
                    j,
                ),
            forall|j: int| 0 <= j < i ==> (#[trigger] points@[j]).wf(),
        decreases num_points - i,
    {
        proof {
            lemma_sample_t_props(num_points as int, i as int);
            lemma_line_point_props(
                *p1,
                *p2,
                fx,
                fy,
                fz,
                invert,
                num_points as int,
                i as int,
            );
            assert((i as int) * (UNIT as int) <= 0xffff_ffff * (UNIT as int))
                by (nonlinear_arith)
                requires
                    0 <= i as int <= 0xffff_ffff,
            ;
        }
        let t: i64 = ((i as i64) * UNIT) / ((num_points as i64) - 1);
        let tx = position_at(fx, t, invert);
        let ty = position_at(fy, t, invert);
        let tz = position_at(fz, t, invert);
        let x = lerp(p1.x, p2.x, tx);
        let y = lerp(p1.y, p2.y, ty);
        let z = lerp(p1.z, p2.z, tz);
        points.push(PlanarPoint { x, y, z });
        i = i + 1;
    }
    points
}

/// The first anchor of a pair palette, read off the source's upcoming
/// draws: hue is a full circle scaled by the first draw, saturation the
/// second draw, and lightness the fourth draw squeezed into the light band
/// `[0.75, 0.95)`.
pub open spec fn pair_anchor0_spec(s: UniformSource) -> ColorPoint {
    ColorPoint {
        hue: (360 * draw_n(s, 0)) as i64,
        sat: draw_n(s, 1) as i64,
        light: (750_000 + draw_n(s, 3) / 5) as i64,
    }
}

/// The second anchor of a pair palette: hue offset around the circle from
/// the first anchor's by the sixth draw, saturation the third draw, and
/// lightness the fifth draw squeezed into the dark band `[0.3, 0.5)`.
pub open spec fn pair_anchor1_spec(s: UniformSource) -> ColorPoint {
    ColorPoint {
        hue: offset_hue_spec(360 * draw_n(s, 0), draw_n(s, 5)) as i64,
        sat: draw_n(s, 2) as i64,
        light: (300_000 + draw_n(s, 4) / 5) as i64,
    }
}

/// Both drawn anchors are well formed, and their channels equal the stated
/// functions of the draws; the lightness bands bracket as documented.
pub proof fn lemma_pair_anchors_props(s: UniformSource)
    requires
        s.wf(),
    ensures
        pair_anchor0_spec(s).wf(),
        pair_anchor1_spec(s).wf(),
        pair_anchor0_spec(s).hue == 360 * draw_n(s, 0),
        pair_anchor0_spec(s).sat == draw_n(s, 1),
        pair_anchor0_spec(s).light == 750_000 + draw_n(s, 3) / 5,
        750_000 <= pair_anchor0_spec(s).light < 950_000,
        pair_anchor1_spec(s).hue == offset_hue_spec(360 * draw_n(s, 0), draw_n(s, 5)),
        pair_anchor1_spec(s).sat == draw_n(s, 2),
        pair_anchor1_spec(s).light == 300_000 + draw_n(s, 4) / 5,
        300_000 <= pair_anchor1_spec(s).light < 500_000,
{
    lemma_source_after_props(s, 0);
    lemma_source_after_props(s, 1);
    lemma_source_after_props(s, 2);
    lemma_source_after_props(s, 3);
    lemma_source_after_props(s, 4);
    lemma_source_after_props(s, 5);
    lemma_offset_hue_range(360 * draw_n(s, 0), draw_n(s, 5));
}

/// The emitted color of a planar sample: hue becomes the planar angle as a
/// turn fraction (already in `[0, UNIT)`, which is what normalizing the
/// micro-degree hue by a full circle yields), saturation passes through,
/// lightness is twice the distance from the center, and alpha is opaque.
pub open spec fn color_of_planar_spec(p: PlanarPoint) -> Hsla {
    Hsla {
        hue: atan2_turn_spec(p.y - (HALF_UNIT as int), p.x - (HALF_UNIT as int)) as i64,
        sat: p.z,
        light: hsl_light_spec(p) as i64,
        alpha: UNIT,
    }
}

/// Every emitted color has its hue inside `[0, UNIT)`, full opacity, and
/// the planar saturation unchanged.
pub proof fn lemma_color_of_planar_props(p: PlanarPoint)
    requires
        p.wf(),
    ensures
        ({
            let h = color_of_planar_spec(p);
            &&& h.hue == atan2_turn_spec(p.y - (HALF_UNIT as int), p.x - (HALF_UNIT as int))
            &&& 0 <= h.hue < UNIT
            &&& h.sat == p.z
            &&& h.light == hsl_light_spec(p)
            &&& 0 <= h.light <= 1_414_212
            &&& h.alpha == UNIT
        }),
{
    lemma_color_of_point_props(p);
    lemma_atan2_turn_props(p.y - (HALF_UNIT as int), p.x - (HALF_UNIT as int));
}

/// The whole pair palette a source and a pacing choice determine: both
/// anchors are drawn, mapped to the planar space, and `len` paced samples
/// of the connecting line are mapped back to colors.
pub open spec fn pair_palette_spec(s: UniformSource, f: PosFunctions, len: int) -> Seq<Hsla> {
    let p1 = point_of_color_spec(pair_anchor0_spec(s));
    let p2 = point_of_color_spec(pair_anchor1_spec(s));
    let ks = axis_kinds_spec(f);
    Seq::new(
        len as nat,
        |i: int| color_of_planar_spec(line_point_spec(p1, p2, ks.0, ks.1, ks.2, false, len, i)),
    )
}

/// Generates a palette of `length` colors between two randomly drawn
/// anchors, pacing the interpolation with the chosen curve family.
///
/// Exactly six uniform draws are consumed, in this order: the first
/// anchor's hue, both saturations, both lightness residuals, and the hue
/// offset of the second anchor. Fewer than two samples cannot bracket both
/// anchors, so such a request is refused before anything is drawn.
pub fn get_random_color_palette(
    length: usize,
    pos_functions: &PosFunctions,
    source: &mut UniformSource,
) -> (result: Result<Vec<Hsla>, PaletteError>)
    requires
        old(source).wf(),
        length <= 0xffff_ffff,
    ensures
        final(source).wf(),
        result is Ok <==> length >= 2,
        length < 2 ==> result == Err::<Vec<Hsla>, PaletteError>(PaletteError::InvalidLength)
            && *final(source) == *old(source),
        length >= 2 ==> ({
            let colors = result->Ok_0;
            &&& colors@.len() == length
            &&& colors@ == pair_palette_spec(*old(source), *pos_functions, length as int)
            &&& *final(source) == source_after(*old(source), 6)
            &&& forall|i: int|
                0 <= i < length ==> 0 <= (#[trigger] colors@[i]).hue < UNIT && colors@[i].alpha
                    == UNIT
        }),
{
    if length < 2 {
        return Err(PaletteError::InvalidLength);
    }
    let ghost s0 = *source;
    proof {
        lemma_pair_anchors_props(s0);
        lemma_source_after_props(s0, 0);
        lemma_source_after_props(s0, 1);
        lemma_source_after_props(s0, 2);
        lemma_source_after_props(s0, 3);
        lemma_source_after_props(s0, 4);
        lemma_source_after_props(s0, 5);
    }
    let hue0: i64 = 360 * source.next_unit();
    let sat0 = source.next_unit();
    let sat1 = source.next_unit();
    let light0: i64 = 750_000 + source.next_unit() / 5;
    let light1: i64 = 300_000 + source.next_unit() / 5;
    proof {
        assert(*source == source_after(s0, 5));
    }
    let anchors = random_hsl_pair(hue0, (sat0, sat1), (light0, light1), source);
    let ghost a0 = pair_anchor0_spec(s0);
    let ghost a1 = pair_anchor1_spec(s0);
    proof {
        assert(*source == source_after(s0, 6));
        assert(anchors.0 == a0);
        assert(anchors.1 == a1);
    }
    let kinds = axis_kinds(pos_functions);
    let p1 = hsl_to_point(&anchors.0);
    let p2 = hsl_to_point(&anchors.1);
    let points = vectors_on_line(&p1, &p2, length, false, kinds.0, kinds.1, kinds.2);
    let colors = colors_of_points(&points);
    proof {
        assert(colors@ =~= pair_palette_spec(s0, *pos_functions, length as int));
    }
    Ok(colors)
}

/// The first anchor of a triple palette: hue from the first draw, saturation
/// from the second, lightness from the fifth draw in the light band.
pub open spec fn triple_anchor0_spec(s: UniformSource) -> ColorPoint {
    ColorPoint {
        hue: (360 * draw_n(s, 0)) as i64,
        sat: draw_n(s, 1) as i64,
        light: (750_000 + draw_n(s, 4) / 5) as i64,
    }
}

/// The second anchor of a triple palette: hue offset from the first by the
/// eighth draw, saturation from the third, lightness from the sixth draw in
/// the dark band.
pub open spec fn triple_anchor1_spec(s: UniformSource) -> ColorPoint {
    ColorPoint {
        hue: offset_hue_spec(360 * draw_n(s, 0), draw_n(s, 7)) as i64,
        sat: draw_n(s, 2) as i64,
        light: (300_000 + draw_n(s, 5) / 5) as i64,
    }
}

/// The third anchor of a triple palette: hue offset from the second anchor's
/// by the ninth draw, saturation from the fourth, lightness from the seventh
/// draw in the dark band.
pub open spec fn triple_anchor2_spec(s: UniformSource) -> ColorPoint {
    ColorPoint {
        hue: offset_hue_spec(
            offset_hue_spec(360 * draw_n(s, 0), draw_n(s, 7)),
            draw_n(s, 8),
        ) as i64,
        sat: draw_n(s, 3) as i64,
        light: (300_000 + draw_n(s, 6) / 5) as i64,
    }
}

/// All three drawn anchors are well formed and equal the stated functions
/// of the draws.
pub proof fn lemma_triple_anchors_props(s: UniformSource)
    requires
        s.wf(),
    ensures
        triple_anchor0_spec(s).wf(),
        triple_anchor1_spec(s).wf(),
        triple_anchor2_spec(s).wf(),
        triple_anchor0_spec(s).hue == 360 * draw_n(s, 0),
        triple_anchor1_spec(s).hue == offset_hue_spec(360 * draw_n(s, 0), draw_n(s, 7)),
        triple_anchor2_spec(s).hue == offset_hue_spec(
            triple_anchor1_spec(s).hue as int,
            draw_n(s, 8),
        ),
{
    lemma_source_after_props(s, 0);
    lemma_source_after_props(s, 1);
    lemma_source_after_props(s, 2);
    lemma_source_after_props(s, 3);
    lemma_source_after_props(s, 4);
    lemma_source_after_props(s, 5);
    lemma_source_after_props(s, 6);
    lemma_source_after_props(s, 7);
    lemma_source_after_props(s, 8);
    lemma_offset_hue_range(360 * draw_n(s, 0), draw_n(s, 7));
    lemma_offset_hue_range(
        offset_hue_spec(360 * draw_n(s, 0), draw_n(s, 7)),
        draw_n(s, 8),
    );
}

/// How many of a triple palette's samples lie on the first segment,
/// endpoints included: half the total rounded up, and never fewer than the
/// two anchor endpoints themselves.
pub open spec fn first_segment_len_spec(len: int) -> int {
    if (len + 1) / 2 < 2 {
        2
    } else {
        (len + 1) / 2
    }
}

/// The colors of a two-segment path through three planar anchor points.
/// The `len` samples split across the segments: the first segment holds
/// `first_segment_len_spec(len)` samples including both of its endpoints,
/// and the remaining samples continue along the second segment, skipping
/// the shared middle point so it appears exactly once.
pub open spec fn two_segment_colors_spec(
    p1: PlanarPoint,
    p2: PlanarPoint,
    p3: PlanarPoint,
    kx: PositionKind,
    ky: PositionKind,
    kz: PositionKind,
    len: int,
) -> Seq<Hsla> {
    let m = first_segment_len_spec(len);
    let k = len - m;
    Seq::new(
        len as nat,
        |i: int|
            if i < m {
                color_of_planar_spec(line_point_spec(p1, p2, kx, ky, kz, false, m, i))
            } else {
                color_of_planar_spec(
                    line_point_spec(p2, p3, kx, ky, kz, false, k + 1, i - m + 1),
                )
            },
    )
}

/// The whole triple palette a source and a pacing choice determine: the
/// three anchors are drawn, mapped to the planar space, and the samples of
/// the two-segment path through them are mapped back to colors.
pub open spec fn triple_palette_spec(s: UniformSource, f: PosFunctions, len: int) -> Seq<Hsla> {
    let ks = axis_kinds_spec(f);
    two_segment_colors_spec(
        point_of_color_spec(triple_anchor0_spec(s)),
        point_of_color_spec(triple_anchor1_spec(s)),
        point_of_color_spec(triple_anchor2_spec(s)),
        ks.0,
        ks.1,
        ks.2,
        len,
    )
}

/// Lays out and converts the samples of the two-segment path through three
/// planar anchor points.
fn two_segment_colors(
    p1: &PlanarPoint,
    p2: &PlanarPoint,
    p3: &PlanarPoint,
    kx: PositionKind,
    ky: PositionKind,
    kz: PositionKind,
    length: usize,
) -> (colors: Vec<Hsla>)
    requires
        p1.wf(),
        p2.wf(),
        p3.wf(),
        2 <= length <= 0xffff_ffff,
    ensures
        colors@.len() == length,
        colors@ == two_segment_colors_spec(*p1, *p2, *p3, kx, ky, kz, length as int),
        forall|i: int|
            0 <= i < length ==> 0 <= (#[trigger] colors@[i]).hue < UNIT && colors@[i].alpha
                == UNIT,
{
    let ghost palette = two_segment_colors_spec(*p1, *p2, *p3, kx, ky, kz, length as int);
    let half: usize = length / 2 + length % 2;
    proof {
        assert(half as int == (length as int + 1) / 2);
    }
    let m: usize = if half < 2 {
        2
    } else {
        half
    };
    let k: usize = length - m;
    let first_points = vectors_on_line(p1, p2, m, false, kx, ky, kz);
    let mut colors = colors_of_points(&first_points);
    proof {
        assert(m as int == first_segment_len_spec(length as int));
        assert(forall|q: int| 0 <= q < m ==> #[trigger] colors@[q] == palette[q]);
    }
    if k >= 1 {
        let second_points = vectors_on_line(p2, p3, k + 1, false, kx, ky, kz);
        let second_colors = colors_of_points(&second_points);
        proof {
            assert(forall|q: int|
                1 <= q <= k ==> #[trigger] second_colors@[q] == palette[m + q - 1]);
        }
        let mut j: usize = 1;
        while j < k + 1
            invariant
                second_colors@.len() == k + 1,
                1 <= j <= k + 1,
                colors@.len() == m + j - 1,
                m + k == length,
                2 <= m,
                length <= 0xffff_ffff,
                forall|q: int| 0 <= q < m + j - 1 ==> #[trigger] colors@[q] == palette[q],
                forall|q: int|
                    1 <= q <= k ==> #[trigger] second_colors@[q] == palette[m + q - 1],
                forall|q: int|
                    0 <= q < second_colors@.len() ==> 0 <= (
                    #[trigger] second_colors@[q]).hue < UNIT && second_colors@[q].alpha == UNIT,
                forall|q: int|
                    0 <= q < colors@.len() ==> 0 <= (#[trigger] colors@[q]).hue < UNIT
                        && colors@[q].alpha == UNIT,
            decreases k + 1 - j,
        {
            colors.push(second_colors[j]);
            j = j + 1;
        }
    }
    proof {
        assert(colors@ =~= palette);
    }
    colors
}

/// Generates a palette of `length` colors across three randomly drawn
/// anchors, pacing each of the two segments with the chosen curve family.
///
/// Exactly nine uniform draws are consumed, in this order: the first
/// anchor's hue, the three saturations, the three lightness residuals, and
/// the two hue offsets. Fewer than two samples cannot bracket the outer
/// anchors, so such a request is refused before anything is drawn.
pub fn generate_triple_palette(
    length: usize,
    pos_functions: &PosFunctions,
    source: &mut UniformSource,
) -> (result: Result<Vec<Hsla>, PaletteError>)
    requires
        old(source).wf(),
        length <= 0xffff_ffff,
    ensures
        final(source).wf(),
        result is Ok <==> length >= 2,
        length < 2 ==> result == Err::<Vec<Hsla>, PaletteError>(PaletteError::InvalidLength)
            && *final(source) == *old(source),
        length >= 2 ==> ({
            let colors = result->Ok_0;
            &&& colors@.len() == length
            &&& colors@ == triple_palette_spec(*old(source), *pos_functions, length as int)
            &&& *final(source) == source_after(*old(source), 9)
            &&& forall|i: int|
                0 <= i < length ==> 0 <= (#[trigger] colors@[i]).hue < UNIT && colors@[i].alpha
                    == UNIT
        }),
{
    if length < 2 {
        return Err(PaletteError::InvalidLength);
    }
    let ghost s0 = *source;
    proof {
        lemma_triple_anchors_props(s0);
        lemma_source_after_props(s0, 0);
        lemma_source_after_props(s0, 1);
        lemma_source_after_props(s0, 2);
        lemma_source_after_props(s0, 3);
        lemma_source_after_props(s0, 4);
        lemma_source_after_props(s0, 5);
        lemma_source_after_props(s0, 6);
        lemma_source_after_props(s0, 7);
        lemma_source_after_props(s0, 8);
    }
    let hue0: i64 = 360 * source.next_unit();
    let sat0 = source.next_unit();
    let sat1 = source.next_unit();
    let sat2 = source.next_unit();
    let light0: i64 = 750_000 + source.next_unit() / 5;
    let light1: i64 = 300_000 + source.next_unit() / 5;
    let light2: i64 = 300_000 + source.next_unit() / 5;
    proof {
        assert(*source == source_after(s0, 7));
    }
    let anchors = random_hsl_triple(
        hue0,
        (sat0, sat1, sat2),
        (light0, light1, light2),
        source,
    );
    proof {
        assert(*source == source_after(s0, 9));
        assert(anchors.0 == triple_anchor0_spec(s0));
        assert(anchors.1 == triple_anchor1_spec(s0));
        assert(anchors.2 == triple_anchor2_spec(s0));
    }
    let kinds = axis_kinds(pos_functions);
    let p1 = hsl_to_point(&anchors.0);
    let p2 = hsl_to_point(&anchors.1);
    let p3 = hsl_to_point(&anchors.2);
    let colors = two_segment_colors(&p1, &p2, &p3, kinds.0, kinds.1, kinds.2, length);
    proof {
        assert(colors@ =~= triple_palette_spec(s0, *pos_functions, length as int));
    }
    Ok(colors)
}

/// Anchor exactness: whatever pacing is chosen, the first color of a pair
/// palette is exactly the first anchor converted through the planar space,
/// and the last color exactly the second anchor — because every pacing
/// curve maps `0` to `0` and a whole unit to a whole unit, and the linear
/// interpolant is exact at its endpoints.
pub proof fn lemma_pair_palette_anchor_exactness(s: UniformSource, f: PosFunctions, len: int)
    requires
        s.wf(),
        2 <= len,
    ensures
        pair_palette_spec(s, f, len)[0] == color_of_planar_spec(
            point_of_color_spec(pair_anchor0_spec(s)),
        ),
        pair_palette_spec(s, f, len)[len - 1] == color_of_planar_spec(
            point_of_color_spec(pair_anchor1_spec(s)),
        ),
{
    let a0 = pair_anchor0_spec(s);
    let a1 = pair_anchor1_spec(s);
    let p1 = point_of_color_spec(a0);
    let p2 = point_of_color_spec(a1);
    let ks = axis_kinds_spec(f);
    lemma_pair_anchors_props(s);
    lemma_point_of_color_props(a0);
    lemma_point_of_color_props(a1);
    lemma_sample_t_props(len, 0);
    lemma_sample_t_props(len, len - 1);
    lemma_position_boundary(ks.0, false);
    lemma_position_boundary(ks.1, false);
    lemma_position_boundary(ks.2, false);
    lemma_lerp_bounds(p1.x as int, p2.x as int, 0);
    lemma_lerp_bounds(p1.y as int, p2.y as int, 0);
    lemma_lerp_bounds(p1.z as int, p2.z as int, 0);
    lemma_lerp_bounds(p1.x as int, p2.x as int, UNIT as int);
    lemma_lerp_bounds(p1.y as int, p2.y as int, UNIT as int);
    lemma_lerp_bounds(p1.z as int, p2.z as int, UNIT as int);
    assert(line_point_spec(p1, p2, ks.0, ks.1, ks.2, false, len, 0) == p1);
    assert(line_point_spec(p1, p2, ks.0, ks.1, ks.2, false, len, len - 1) == p2);
}

/// Anchor exactness of the triple palette, pinning the split policy: the
/// first color is the first anchor converted; the last color of the first
/// segment is the shared middle anchor, which appears exactly once; and
/// whenever samples continue onto the second segment, the final color is
/// the third anchor.
pub proof fn lemma_triple_palette_anchor_exactness(s: UniformSource, f: PosFunctions, len: int)
    requires
        s.wf(),
        2 <= len,
    ensures
        ({
            let m = first_segment_len_spec(len);
            &&& 2 <= m <= len
            &&& triple_palette_spec(s, f, len)[0] == color_of_planar_spec(
                point_of_color_spec(triple_anchor0_spec(s)),
            )
            &&& triple_palette_spec(s, f, len)[m - 1] == color_of_planar_spec(
                point_of_color_spec(triple_anchor1_spec(s)),
            )
            &&& len > m ==> triple_palette_spec(s, f, len)[len - 1] == color_of_planar_spec(
                point_of_color_spec(triple_anchor2_spec(s)),
            )
        }),
{
    let a0 = triple_anchor0_spec(s);
    let a1 = triple_anchor1_spec(s);
    let a2 = triple_anchor2_spec(s);
    let p1 = point_of_color_spec(a0);
    let p2 = point_of_color_spec(a1);
    let p3 = point_of_color_spec(a2);
    let ks = axis_kinds_spec(f);
    let m = first_segment_len_spec(len);
    let k = len - m;
    lemma_div_le(len + 1, len, 2);
    lemma_triple_anchors_props(s);
    lemma_point_of_color_props(a0);
    lemma_point_of_color_props(a1);
    lemma_point_of_color_props(a2);
    lemma_sample_t_props(m, 0);
    lemma_sample_t_props(m, m - 1);
    lemma_position_boundary(ks.0, false);
    lemma_position_boundary(ks.1, false);
    lemma_position_boundary(ks.2, false);
    lemma_lerp_bounds(p1.x as int, p2.x as int, 0);
    lemma_lerp_bounds(p1.y as int, p2.y as int, 0);
    lemma_lerp_bounds(p1.z as int, p2.z as int, 0);
    lemma_lerp_bounds(p1.x as int, p2.x as int, UNIT as int);
    lemma_lerp_bounds(p1.y as int, p2.y as int, UNIT as int);
    lemma_lerp_bounds(p1.z as int, p2.z as int, UNIT as int);
    assert(line_point_spec(p1, p2, ks.0, ks.1, ks.2, false, m, 0) == p1);
    assert(line_point_spec(p1, p2, ks.0, ks.1, ks.2, false, m, m - 1) == p2);
    if len > m {
        lemma_sample_t_props(k + 1, k);
        lemma_lerp_bounds(p2.x as int, p3.x as int, UNIT as int);
        lemma_lerp_bounds(p2.y as int, p3.y as int, UNIT as int);
        lemma_lerp_bounds(p2.z as int, p3.z as int, UNIT as int);
        assert(line_point_spec(p2, p3, ks.0, ks.1, ks.2, false, k + 1, k) == p3);
    }
}

/// Determinism: a palette is an exact function of the source state, the
/// pacing choice and the requested length, so identically seeded sources
/// and identical requests yield identical palettes.
pub proof fn lemma_palette_deterministic(
    s1: UniformSource,
    s2: UniformSource,
    f: PosFunctions,
    len: int,
)
    requires
        s1 == s2,
    ensures
        pair_palette_spec(s1, f, len) == pair_palette_spec(s2, f, len),
        triple_palette_spec(s1, f, len) == triple_palette_spec(s2, f, len),
{
}

/// A custom pacing that applies the linear curve to every axis generates
/// exactly the palettes that choosing the linear pacing directly does.
pub proof fn lemma_custom_linear_matches_linear(s: UniformSource, len: int)
    ensures
        pair_palette_spec(
            s,
            PosFunctions::Custom {
                fx: PositionKind::Linear,
                fy: PositionKind::Linear,
                fz: PositionKind::Linear,
            },
            len,
        ) == pair_palette_spec(s, PosFunctions::LinearPosition, len),
        triple_palette_spec(
            s,
            PosFunctions::Custom {
                fx: PositionKind::Linear,
                fy: PositionKind::Linear,
                fz: PositionKind::Linear,
            },
            len,
        ) == triple_palette_spec(s, PosFunctions::LinearPosition, len),
{
    let custom = PosFunctions::Custom {
        fx: PositionKind::Linear,
        fy: PositionKind::Linear,
        fz: PositionKind::Linear,
    };
    assert(axis_kinds_spec(custom) == axis_kinds_spec(PosFunctions::LinearPosition));
    assert(pair_palette_spec(s, custom, len) =~= pair_palette_spec(
        s,
        PosFunctions::LinearPosition,
        len,
    ));
    assert(triple_palette_spec(s, custom, len) =~= triple_palette_spec(
        s,
        PosFunctions::LinearPosition,
        len,
    ));
}

/// One direction of the planar round trip holds exactly in every case:
/// saturation rides along as the third coordinate and passes through both
/// conversions unchanged.
pub proof fn lemma_round_trip_saturation(c: ColorPoint)
    requires
        c.wf(),
    ensures
        color_of_point_spec(point_of_color_spec(c)).sat == c.sat,
{
    lemma_point_of_color_props(c);
}

/// The lightness round trip is a stated bound for every well-formed color:
/// converting to the planar point and back moves lightness up by at most
/// two micro-units, and — once lightness is large enough for the planar
/// quantization not to swamp it — down by at most nine, so the channel
/// round-trips within `1e-5` of the unit interval. (The hue channel's
/// bound is representational in the same way but rests on the bisection
/// inverting the direction function, which is measured by the test suite
/// rather than proved.)
pub proof fn lemma_round_trip_lightness(c: ColorPoint)
    requires
        c.wf(),
    ensures
        hsl_light_spec(point_of_color_spec(c)) <= c.light + 2,
        c.light >= 20 ==> hsl_light_spec(point_of_color_spec(c)) >= c.light - 9,
{
    let u = UNIT as int;
    let turn = (c.hue as int) / 360;
    let d = (c.light as int) / 2;
    lemma_point_of_color_props(c);
    lemma_div_pos_is_pos(c.hue as int, 360);
    lemma_multiply_divide_lt(c.hue as int, 360, u);
    lemma_cos_turn_props(turn);
    lemma_sin_turn_props(turn);
    lemma_sin_cos_norm(turn);
    let cx = cos_turn_spec(turn);
    let sy = sin_turn_spec(turn);
    let p = point_of_color_spec(c);
    let dx = p.x - (HALF_UNIT as int);
    let dy = p.y - (HALF_UNIT as int);
    lemma_scale_signed_bounds(d, cx);
    lemma_scale_signed_bounds(d, sy);
    assert(dx == scale_signed_spec(d, cx) && dy == scale_signed_spec(d, sy));
    lemma_scale_signed_err(d, cx);
    lemma_scale_signed_err(d, sy);
    let e1 = u * dx - d * cx;
    let e2 = u * dy - d * sy;
    // expand the two squared coordinates
    assert((u * dx) * (u * dx) == d * d * (cx * cx) + 2 * (d * (cx * e1)) + e1 * e1 && (u * dy) * (
    u * dy) == d * d * (sy * sy) + 2 * (d * (sy * e2)) + e2 * e2) by (nonlinear_arith)
        requires
            u * dx == d * cx + e1,
            u * dy == d * sy + e2,
    ;
    assert((u * dx) * (u * dx) + (u * dy) * (u * dy) == (u * u) * (dx * dx + dy * dy))
        by (nonlinear_arith);
    // bound every cross term by a whole square
    assert(-(u * u) <= cx * e1 <= u * u && -(u * u) <= sy * e2 <= u * u && 0 <= e1 * e1 <= u * u
        && 0 <= e2 * e2 <= u * u) by (nonlinear_arith)
        requires
            -u <= cx <= u,
            -u <= sy <= u,
            -u < e1 <= u,
            -u < e2 <= u,
    ;
    assert(-(d * (u * u)) <= d * (cx * e1) <= d * (u * u) && -(d * (u * u)) <= d * (sy * e2) <= d
        * (u * u)) by (nonlinear_arith)
        requires
            -(u * u) <= cx * e1 <= u * u,
            -(u * u) <= sy * e2 <= u * u,
            0 <= d,
    ;
    assert(d * d * (cx * cx) + d * d * (sy * sy) <= d * d * (u * u) && d * d * (cx * cx) + d * d
        * (sy * sy) >= d * d * (u * u) - d * d * (3 * u)) by (nonlinear_arith)
        requires
            cx * cx + sy * sy <= u * u,
            u * u - 3 * u <= cx * cx + sy * sy,
            0 <= d,
    ;
    // the squared radius sits within a few rounding strips of d^2
    assert((u * u) * (dx * dx + dy * dy) <= (u * u) * (d * d + 4 * d + 2)) by (nonlinear_arith)
        requires
            (u * u) * (dx * dx + dy * dy) <= d * d * (u * u) + 4 * (d * (u * u)) + 2 * (u * u),
            u > 0,
    ;
    assert((u * u) * (d * d - 6 * d) <= (u * u) * (dx * dx + dy * dy)) by (nonlinear_arith)
        requires
            (u * u) * (dx * dx + dy * dy) >= d * d * (u * u) - d * d * (3 * u) - 4 * (d * (u
                * u)),
            0 <= d <= 500_000,
            u == 1_000_000,
    ;
    assert(d * d - 6 * d <= dx * dx + dy * dy <= d * d + 4 * d + 2) by (nonlinear_arith)
        requires
            (u * u) * (dx * dx + dy * dy) <= (u * u) * (d * d + 4 * d + 2),
            (u * u) * (d * d - 6 * d) <= (u * u) * (dx * dx + dy * dy),
            u > 0,
    ;
    assert(0 <= dx * dx + dy * dy) by (nonlinear_arith);
    lemma_isqrt_spec_correct(dx * dx + dy * dy);
    let rr = isqrt_spec(dx * dx + dy * dy);
    assert(rr <= d + 1) by (nonlinear_arith)
        requires
            rr * rr <= dx * dx + dy * dy,
            dx * dx + dy * dy <= d * d + 4 * d + 2,
            0 <= rr,
            0 <= d,
    ;
    if c.light >= 20 {
        assert(d - 4 <= rr) by (nonlinear_arith)
            requires
                dx * dx + dy * dy < (rr + 1) * (rr + 1),
                d * d - 6 * d <= dx * dx + dy * dy,
                0 <= rr,
                10 <= d,
        ;
    }
}

/// At the four cardinal hues, with an even lightness, the full round trip
/// is exact: mapping a color to its planar point and back reproduces every
/// channel. (Away from those axes the trigonometric approximations round;
/// an odd lightness loses its last micro-unit to the halving; and away
/// from hue zero the center itself, lightness zero, has no well-defined
/// hue and comes back with hue zero.)
pub proof fn lemma_round_trip_cardinal_hue(c: ColorPoint)
    requires
        c.wf(),
        c.hue == 0 || c.hue == 90_000_000 || c.hue == 180_000_000 || c.hue == 270_000_000,
        c.light % 2 == 0,
        c.hue != 0 ==> c.light > 0,
    ensures
        color_of_point_spec(point_of_color_spec(c)) == c,
{
    let turn = (c.hue as int) / 360;
    let d = (c.light as int) / 2;
    lemma_cos_turn_props(turn);
    lemma_sin_turn_props(turn);
    lemma_scale_signed_bounds(d, cos_turn_spec(turn));
    lemma_scale_signed_bounds(d, sin_turn_spec(turn));
    let p = point_of_color_spec(c);
    let dx = p.x - (HALF_UNIT as int);
    let dy = p.y - (HALF_UNIT as int);
    lemma_atan2_turn_props(dy, dx);
    assert(dx * dx + dy * dy == d * d) by (nonlinear_arith)
        requires
            (dx == d && dy == 0) || (dx == 0 && dy == d) || (dx == -d && dy == 0) || (dx == 0
                && dy == -d),
    ;
    assert(d * d < (d + 1) * (d + 1)) by (nonlinear_arith)
        requires
            0 <= d,
    ;
    lemma_isqrt_spec_correct(d * d);
    lemma_isqrt_unique(d * d, isqrt_spec(d * d), d);
}

/// Maps every planar sample of a line back to an emitted color: hue is the
/// micro-degree angle normalized by a full circle into a turn fraction.
fn colors_of_points(points: &Vec<PlanarPoint>) -> (colors: Vec<Hsla>)
    requires
        forall|j: int| 0 <= j < points@.len() ==> (#[trigger] points@[j]).wf(),
    ensures
        colors@.len() == points@.len(),
        forall|j: int|
            0 <= j < points@.len() ==> #[trigger] colors@[j] == color_of_planar_spec(
                points@[j],
            ),
        forall|j: int|
            0 <= j < points@.len() ==> 0 <= (#[trigger] colors@[j]).hue < UNIT
                && colors@[j].alpha == UNIT,
{
    let mut colors: Vec<Hsla> = Vec::new();
    let mut i: usize = 0;
    while i < points.len()
        invariant
            forall|j: int| 0 <= j < points@.len() ==> (#[trigger] points@[j]).wf(),
            0 <= i <= points@.len(),
            colors@.len() == i,
            forall|j: int|
                0 <= j < i ==> #[trigger] colors@[j] == color_of_planar_spec(points@[j]),
            forall|j: int|
                0 <= j < i ==> 0 <= (#[trigger] colors@[j]).hue < UNIT && colors@[j].alpha
                    == UNIT,
        decreases points@.len() - i,
    {
        let point = points[i];
        let c = point_to_hsl(&point);
        proof {
            lemma_color_of_planar_props(point);
            lemma_div_pos_is_pos(c.hue as int, 360);
            lemma_div_multiples_vanish(
                atan2_turn_spec(point.y - (HALF_UNIT as int), point.x - (HALF_UNIT as int)),
                360,
            );
        }
        let hue: i64 = c.hue / 360;
        colors.push(Hsla { hue, sat: c.sat, light: c.light, alpha: UNIT });
        i = i + 1;
    }
    colors
}

} // verus!
