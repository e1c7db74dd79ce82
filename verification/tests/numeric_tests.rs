use artworks::fixed::{isqrt, lerp, mul_unit, scale_signed, HALF_UNIT, UNIT};
use artworks::pacing::sinusoidal_position;
use artworks::trig::{
    asin_unit, atan2_turn, cos_turn, sin_turn, EIGHTH_TURN, HALF_TURN, QUARTER_TURN,
};

#[test]
fn isqrt_exact_values() {
    assert_eq!(isqrt(0), 0);
    assert_eq!(isqrt(1), 1);
    assert_eq!(isqrt(3), 1);
    assert_eq!(isqrt(4), 2);
    assert_eq!(isqrt(999_999), 999);
    assert_eq!(isqrt(1_000_000), 1000);
    assert_eq!(isqrt(UNIT * UNIT), UNIT);
    assert_eq!(isqrt(500_000_000_000), 707_106);
}

#[test]
fn mul_unit_scales_fractions() {
    assert_eq!(mul_unit(500_000, 500_000), 250_000);
    assert_eq!(mul_unit(UNIT, 123_456), 123_456);
    assert_eq!(mul_unit(123_456, UNIT), 123_456);
    assert_eq!(mul_unit(0, 999_999), 0);
}

#[test]
fn scale_signed_keeps_sign() {
    assert_eq!(scale_signed(400_000, UNIT), 400_000);
    assert_eq!(scale_signed(400_000, -UNIT), -400_000);
    assert_eq!(scale_signed(400_000, 0), 0);
    assert_eq!(scale_signed(400_000, -500_000), -200_000);
}

#[test]
fn lerp_endpoints_and_midpoint() {
    assert_eq!(lerp(200_000, 800_000, 0), 200_000);
    assert_eq!(lerp(200_000, 800_000, UNIT), 800_000);
    assert_eq!(lerp(200_000, 800_000, HALF_UNIT), 500_000);
}

#[test]
fn sine_exact_at_quarter_turns() {
    assert_eq!(sin_turn(0), 0);
    assert_eq!(sin_turn(QUARTER_TURN), UNIT);
    assert_eq!(sin_turn(HALF_TURN), 0);
    assert_eq!(sin_turn(3 * QUARTER_TURN), -UNIT);
    assert_eq!(sin_turn(UNIT), 0);
}

#[test]
fn cosine_exact_at_quarter_turns() {
    assert_eq!(cos_turn(0), UNIT);
    assert_eq!(cos_turn(QUARTER_TURN), 0);
    assert_eq!(cos_turn(HALF_TURN), -UNIT);
    assert_eq!(cos_turn(3 * QUARTER_TURN), 0);
    assert_eq!(cos_turn(UNIT), UNIT);
}

#[test]
fn sine_close_to_reference_between_anchors() {
    // the polynomial quarter wave against the true sine, in unit fractions
    let mut t: i64 = 0;
    while t <= UNIT {
        let approx = sin_turn(t) as f64 / UNIT as f64;
        let exact = (t as f64 / UNIT as f64 * std::f64::consts::TAU).sin();
        assert!((approx - exact).abs() < 3e-6, "t={} approx={} exact={}", t, approx, exact);
        t += 997;
    }
}

#[test]
fn sine_and_cosine_square_sum_to_one() {
    // the Pythagorean pairing keeps the sampled direction on the unit circle
    let mut t: i64 = 0;
    while t <= UNIT {
        let s = sin_turn(t);
        let c = cos_turn(t);
        let n = s * s + c * c;
        assert!(UNIT * UNIT - 3 * UNIT <= n && n <= UNIT * UNIT, "t={} n={}", t, n);
        t += 641;
    }
}

#[test]
fn atan2_exact_on_the_axes() {
    assert_eq!(atan2_turn(0, 700_000), 0);
    assert_eq!(atan2_turn(700_000, 0), QUARTER_TURN);
    assert_eq!(atan2_turn(0, -700_000), HALF_TURN);
    assert_eq!(atan2_turn(-700_000, 0), 3 * QUARTER_TURN);
    assert_eq!(atan2_turn(0, 0), 0);
}

#[test]
fn atan2_exact_on_the_diagonals() {
    assert_eq!(atan2_turn(300_000, 300_000), EIGHTH_TURN);
    assert_eq!(atan2_turn(300_000, -300_000), 3 * EIGHTH_TURN);
    assert_eq!(atan2_turn(-300_000, -300_000), 5 * EIGHTH_TURN);
}

#[test]
fn atan2_close_to_reference_between_axes() {
    let pairs = [(200_000i64, 900_000i64), (650_000, 125_000), (-400_000, 333_000), (
        -100_000,
        -800_000,
    ), (542_000, -611_000)];
    for (dy, dx) in pairs {
        let approx = atan2_turn(dy, dx) as f64 / UNIT as f64;
        let mut exact = (dy as f64).atan2(dx as f64) / std::f64::consts::TAU;
        if exact < 0.0 {
            exact += 1.0;
        }
        let mut err = (approx - exact).abs();
        if err > 0.5 {
            err = 1.0 - err;
        }
        assert!(err < 3e-6, "dy={} dx={} approx={} exact={}", dy, dx, approx, exact);
    }
}

#[test]
fn asin_exact_at_the_ends() {
    assert_eq!(asin_unit(0), 0);
    assert_eq!(asin_unit(UNIT), UNIT);
}

#[test]
fn asin_close_to_reference_inside() {
    for t in [100_000i64, 250_000, 500_000, 750_000, 900_000] {
        let approx = asin_unit(t) as f64 / UNIT as f64;
        let exact = (t as f64 / UNIT as f64).asin() / std::f64::consts::FRAC_PI_2;
        assert!((approx - exact).abs() < 2e-5, "t={} approx={} exact={}", t, approx, exact);
    }
}

#[test]
fn asin_inverts_the_sine_away_from_the_flat_top() {
    // on the flat top of the sine a micro-unit of height spans many
    // micro-units of angle, so the inverse is checked below it
    let mut t: i64 = 0;
    while t <= 900_000 {
        let y = sinusoidal_position(t, false);
        let back = asin_unit(y);
        assert!((back - t).abs() <= 30, "t={} y={} back={}", t, y, back);
        t += 733;
    }
}
