use artworks::colors::{get_random_gr_palette, interpolate, Hsva, Rgba, GOLDEN_RATIO};
use artworks::fixed::UNIT;
use artworks::random_source::UniformSource;

#[test]
fn gr_palette_walks_golden_ratio_steps() {
    let mut src = UniformSource::from_tape(vec![100_000]);
    let pal = get_random_gr_palette(3, 800_000, 900_000, &mut src);
    assert_eq!(pal.len(), 3);
    assert_eq!(
        pal[0],
        Hsva { hue: (100_000 + GOLDEN_RATIO) % UNIT, sat: 800_000, value: 900_000, alpha: UNIT }
    );
    assert_eq!(pal[0].hue, 718_034);
    assert_eq!(pal[1].hue, 336_068);
    assert_eq!(pal[2].hue, 954_102);
}

#[test]
fn gr_palette_hues_stay_normalized() {
    let mut src = UniformSource::from_seed(5);
    let pal = get_random_gr_palette(64, 500_000, 500_000, &mut src);
    assert_eq!(pal.len(), 64);
    for c in &pal {
        assert!(0 <= c.hue && c.hue < UNIT);
        assert_eq!(c.sat, 500_000);
        assert_eq!(c.value, 500_000);
        assert_eq!(c.alpha, UNIT);
    }
}

#[test]
fn gr_palette_zero_length_is_empty() {
    let mut src = UniformSource::from_seed(5);
    let pal = get_random_gr_palette(0, 1, 2, &mut src);
    assert!(pal.is_empty());
}

fn gray(level: i64) -> Rgba {
    Rgba { red: level, green: level, blue: level, alpha: UNIT }
}

#[test]
fn interpolate_peaks_where_the_phase_vanishes() {
    // cos(0) = 1: each channel is offset plus full amplitude
    let c = interpolate(0, gray(500_000), gray(200_000), gray(0), gray(0));
    assert_eq!(c, Rgba { red: 700_000, green: 700_000, blue: 700_000, alpha: UNIT });
}

#[test]
fn interpolate_dips_at_the_half_turn_phase() {
    // cos(1/2 turn) = -1: offset minus full amplitude
    let c = interpolate(250_000, gray(500_000), gray(200_000), gray(0), gray(500_000));
    assert_eq!(c.red, 300_000);
    assert_eq!(c.green, 300_000);
    assert_eq!(c.blue, 300_000);
}

#[test]
fn interpolate_crosses_at_the_quarter_turn_phase() {
    // cos(1/4 turn) = 0: the offset alone
    let c = interpolate(UNIT, gray(400_000), gray(350_000), gray(0), gray(250_000));
    assert_eq!(c.red, 400_000);
}

#[test]
fn interpolate_uses_frequency_times_parameter() {
    // phase = c * t + d = 0.5 * 1.0 + 0 = a half turn
    let c = interpolate(UNIT, gray(500_000), gray(100_000), gray(500_000), gray(0));
    assert_eq!(c.red, 400_000);
    assert_eq!(c.alpha, UNIT);
}
