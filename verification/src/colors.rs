//! Simple procedural palettes beside the anchor-based generator: a
//! golden-ratio hue walk and the cosine interpolation palette.

use crate::fixed::{
    lemma_mul_unit_bounds, lemma_scale_signed_bounds, mul_unit, mul_unit_spec, scale_signed,
    scale_signed_spec, UNIT,
};
use crate::random_source::UniformSource;
use crate::trig::{cos_turn, cos_turn_spec, lemma_cos_turn_props};
use vstd::arithmetic::div_mod::{lemma_add_mod_noop, lemma_mod_bound};
use vstd::prelude::*;

verus! {

/// The fractional part of the golden ratio, in micro-units.
pub const GOLDEN_RATIO: i64 = 618_034;

/// A color in the HSV model with an alpha channel: hue as a turn fraction
/// in `[0, UNIT)`, the other channels as the caller supplied them.
#[derive(Clone, Copy, Debug, PartialEq, Eq, Structural)]
pub struct Hsva {
    /// Hue as a fraction of a full rotation, in `[0, UNIT)`.
    pub hue: i64,
    /// Saturation, passed through from the caller.
    pub sat: i64,
    /// Value (brightness), passed through from the caller.
    pub value: i64,
    /// Opacity; emitted colors are fully opaque (`UNIT`).
    pub alpha: i64,
}

/// The hue of the `i`-th golden-ratio palette entry: the drawn starting
/// hue advanced `i + 1` times by the golden-ratio fraction, keeping only
/// the fractional part.
pub open spec fn gr_hue_spec(first: int, i: int) -> int {
    (first + (i + 1) * (GOLDEN_RATIO as int)) % (UNIT as int)
}

/// Generates an evenly distributed random palette by walking the hue circle
/// in golden-ratio steps from one drawn starting hue; saturation and value
/// are shared by every entry. One draw is consumed whatever the length.
pub fn get_random_gr_palette(
    length: usize,
    saturation: i64,
    value: i64,
    source: &mut UniformSource,
) -> (palette: Vec<Hsva>)
    requires
        old(source).wf(),
    ensures
        final(source).wf(),
        *final(source) == old(source).step_spec(),
        palette@.len() == length,
        forall|i: int|
            0 <= i < length ==> #[trigger] palette@[i] == (Hsva {
                hue: gr_hue_spec(old(source).peek_spec(), i) as i64,
                sat: saturation,
                value: value,
                alpha: UNIT,
            }),
        forall|i: int| 0 <= i < length ==> 0 <= (#[trigger] palette@[i]).hue < UNIT,
{
    let ghost first = old(source).peek_spec();
    let mut palette: Vec<Hsva> = Vec::new();
    let mut hue: i64 = source.next_unit();
    let mut i: usize = 0;
    while i < length
        invariant
            0 <= i <= length,
            palette@.len() == i,
            0 <= hue < UNIT,
            hue == (first + i * (GOLDEN_RATIO as int)) % (UNIT as int),
            forall|j: int|
                0 <= j < i ==> #[trigger] palette@[j] == (Hsva {
                    hue: gr_hue_spec(first, j) as i64,
                    sat: saturation,
                    value: value,
                    alpha: UNIT,
                }),
            forall|j: int| 0 <= j < i ==> 0 <= (#[trigger] palette@[j]).hue < UNIT,
        decreases length - i,
    {
        proof {
            lemma_add_mod_noop(first + (i as int) * (GOLDEN_RATIO as int), GOLDEN_RATIO as int,
                UNIT as int);
            lemma_mod_bound(first + (i as int + 1) * (GOLDEN_RATIO as int), UNIT as int);
        }
        hue = (hue + GOLDEN_RATIO) % UNIT;
        palette.push(Hsva { hue, sat: saturation, value: value, alpha: UNIT });
        i = i + 1;
    }
    palette
}

/// A color in linear RGB with an alpha channel, each channel in micro-units.
#[derive(Clone, Copy, Debug, PartialEq, Eq, Structural)]
pub struct Rgba {
    /// Red channel.
    pub red: i64,
    /// Green channel.
    pub green: i64,
    /// Blue channel.
    pub blue: i64,
    /// Opacity.
    pub alpha: i64,
}

impl Rgba {
    /// Every channel is a unit fraction.
    pub open spec fn wf(self) -> bool {
        &&& 0 <= self.red <= UNIT
        &&& 0 <= self.green <= UNIT
        &&& 0 <= self.blue <= UNIT
        &&& 0 <= self.alpha <= UNIT
    }
}

/// One channel of the cosine palette: `a + b * cos(tau * (c * t + d))`,
/// with the angle argument expressed directly as a turn fraction.
pub open spec fn interpolate_channel_spec(t: int, a: int, b: int, c: int, d: int) -> int {
    let phase = (mul_unit_spec(c, t) + d) % (UNIT as int);
    a + scale_signed_spec(b, cos_turn_spec(phase))
}

/// The channel stays within `b` of its offset `a`.
pub proof fn lemma_interpolate_channel_range(t: int, a: int, b: int, c: int, d: int)
    requires
        0 <= t <= UNIT,
        0 <= a <= UNIT,
        0 <= b <= UNIT,
        0 <= c <= UNIT,
        0 <= d <= UNIT,
    ensures
        a - b <= interpolate_channel_spec(t, a, b, c, d) <= a + b,
{
    lemma_mul_unit_bounds(c, t);
    lemma_mod_bound(mul_unit_spec(c, t) + d, UNIT as int);
    let phase = (mul_unit_spec(c, t) + d) % (UNIT as int);
    lemma_cos_turn_props(phase);
    lemma_scale_signed_bounds(b, cos_turn_spec(phase));
}

/// Generates one color of a continuous cosine palette: for each channel,
/// `a` offsets a cosine wave of amplitude `b`, frequency `c` and phase `d`
/// evaluated at `t`. Channels may leave the unit interval, as the classic
/// formulation intends; they are not clamped.
pub fn interpolate(t: i64, a: Rgba, b: Rgba, c: Rgba, d: Rgba) -> (color: Rgba)
    requires
        0 <= t <= UNIT,
        a.wf(),
        b.wf(),
        c.wf(),
        d.wf(),
    ensures
        color.red == interpolate_channel_spec(t as int, a.red as int, b.red as int, c.red as int,
            d.red as int),
        color.green == interpolate_channel_spec(t as int, a.green as int, b.green as int,
            c.green as int, d.green as int),
        color.blue == interpolate_channel_spec(t as int, a.blue as int, b.blue as int,
            c.blue as int, d.blue as int),
        color.alpha == UNIT,
        -UNIT <= color.red <= 2 * UNIT,
        -UNIT <= color.green <= 2 * UNIT,
        -UNIT <= color.blue <= 2 * UNIT,
{
    proof {
        lemma_interpolate_channel_range(t as int, a.red as int, b.red as int, c.red as int,
            d.red as int);
        lemma_interpolate_channel_range(t as int, a.green as int, b.green as int, c.green as int,
            d.green as int);
        lemma_interpolate_channel_range(t as int, a.blue as int, b.blue as int, c.blue as int,
            d.blue as int);
    }
    let red = interpolate_channel(t, a.red, b.red, c.red, d.red);
    let green = interpolate_channel(t, a.green, b.green, c.green, d.green);
    let blue = interpolate_channel(t, a.blue, b.blue, c.blue, d.blue);
    Rgba { red, green, blue, alpha: UNIT }
}

/// One channel of the cosine palette.
fn interpolate_channel(t: i64, a: i64, b: i64, c: i64, d: i64) -> (r: i64)
    requires
        0 <= t <= UNIT,
        0 <= a <= UNIT,
        0 <= b <= UNIT,
        0 <= c <= UNIT,
        0 <= d <= UNIT,
    ensures
        r == interpolate_channel_spec(t as int, a as int, b as int, c as int, d as int),
{
    proof {
        lemma_mul_unit_bounds(c as int, t as int);
        lemma_mod_bound(mul_unit_spec(c as int, t as int) + d, UNIT as int);
        let phase = (mul_unit_spec(c as int, t as int) + d) % (UNIT as int);
        lemma_cos_turn_props(phase);
        lemma_scale_signed_bounds(b as int, cos_turn_spec(phase));
    }
    let phase: i64 = (mul_unit(c, t) + d) % UNIT;
    a + scale_signed(b, cos_turn(phase))
}

} // verus!
