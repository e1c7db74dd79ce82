use artworks::fixed::UNIT;
use artworks::pacing::{
    arc_position, asinusoidal_position, cubic_position, exponential_position, linear_position,
    position_at, quadratic_position, quartic_position, sinusoidal_position, smooth_step_position,
    PositionKind,
};

fn all_kinds() -> Vec<PositionKind> {
    vec![
        PositionKind::Linear,
        PositionKind::Exponential,
        PositionKind::Quadratic,
        PositionKind::Cubic,
        PositionKind::Quartic,
        PositionKind::Sinusoidal,
        PositionKind::Asinusoidal,
        PositionKind::Arc,
        PositionKind::SmoothStep,
    ]
}

#[test]
fn boundary_exactness_every_curve() {
    for kind in all_kinds() {
        for reverse in [false, true] {
            assert_eq!(position_at(kind, 0, reverse), 0, "{:?} at 0 rev {}", kind, reverse);
            assert_eq!(
                position_at(kind, UNIT, reverse),
                UNIT,
                "{:?} at UNIT rev {}",
                kind,
                reverse
            );
        }
    }
}

#[test]
fn every_curve_stays_in_unit_interval() {
    for kind in all_kinds() {
        for reverse in [false, true] {
            let mut t: i64 = 0;
            while t <= UNIT {
                let r = position_at(kind, t, reverse);
                assert!(0 <= r && r <= UNIT, "{:?} at {} rev {} gave {}", kind, t, reverse, r);
                t += 61_803;
            }
        }
    }
}

#[test]
fn linear_is_identity() {
    assert_eq!(linear_position(123_456, false), 123_456);
    assert_eq!(linear_position(123_456, true), 123_456);
}

#[test]
fn exponential_midpoint_value() {
    // 0.5^2 = 0.25
    assert_eq!(exponential_position(500_000, false), 250_000);
    // 1 - 0.5^2 = 0.75
    assert_eq!(exponential_position(500_000, true), 750_000);
}

#[test]
fn quadratic_midpoint_value() {
    // 0.5^3 = 0.125
    assert_eq!(quadratic_position(500_000, false), 125_000);
    assert_eq!(quadratic_position(500_000, true), 875_000);
}

#[test]
fn cubic_midpoint_value() {
    // 0.5^4 = 0.0625
    assert_eq!(cubic_position(500_000, false), 62_500);
    assert_eq!(cubic_position(500_000, true), 937_500);
}

#[test]
fn quartic_midpoint_value() {
    // 0.5^5 = 0.03125
    assert_eq!(quartic_position(500_000, false), 31_250);
    assert_eq!(quartic_position(500_000, true), 968_750);
}

#[test]
fn smooth_step_midpoint_and_symmetry() {
    // 0.25 * (3 - 1) = 0.5 exactly at the midpoint
    assert_eq!(smooth_step_position(500_000, false), 500_000);
    // reverse has no effect on this curve
    for t in [0i64, 137_000, 500_000, 803_000, UNIT] {
        assert_eq!(smooth_step_position(t, false), smooth_step_position(t, true));
    }
}

#[test]
fn sinusoidal_midpoint_value() {
    // sin(pi/4) to the nearest micro-unit under the polynomial quarter wave
    assert_eq!(sinusoidal_position(500_000, false), 707_106);
    assert_eq!(sinusoidal_position(500_000, true), 292_894);
}

#[test]
fn sinusoidal_never_crosses_the_diagonal() {
    // forward stays on or above the diagonal, reverse on or below it,
    // including the first and last few micro-units
    let mut probes: Vec<i64> = (0..2_000).collect();
    let mut t: i64 = 0;
    while t <= UNIT {
        probes.push(t);
        t += 4_999;
    }
    for p in (0..2_000).map(|d| UNIT - d) {
        probes.push(p);
    }
    for t in probes {
        assert!(sinusoidal_position(t, false) >= t, "forward at {}", t);
        assert!(sinusoidal_position(t, true) <= t, "reverse at {}", t);
    }
}

#[test]
fn smooth_step_is_monotone_and_symmetric_within_one() {
    let mut prev: i64 = 0;
    let mut t: i64 = 0;
    while t <= UNIT {
        let v = smooth_step_position(t, false);
        assert!(v >= prev, "dip at {}", t);
        let sum = v + smooth_step_position(UNIT - t, false);
        assert!(sum == UNIT || sum == UNIT - 1, "symmetry at {}: {}", t, sum);
        prev = v;
        t += 1_009;
    }
    // the two fused-division probe points straddling one percent
    assert!(smooth_step_position(10_001, false) >= smooth_step_position(10_000, false));
}

#[test]
fn arc_midpoint_value() {
    // 1 - sqrt(0.5): isqrt(5e11) = 707106
    assert_eq!(arc_position(500_000, false), 292_894);
    // sqrt(1 - 0.25) = sqrt(0.75): isqrt(7.5e11) = 866025
    assert_eq!(arc_position(500_000, true), 866_025);
}

#[test]
fn asinusoidal_midpoint_near_one_third() {
    // asin(0.5) / (pi/2) = 1/3; the rational arctangent stays close
    let r = asinusoidal_position(500_000, false);
    assert!((r - 333_333).abs() < 6_000, "got {}", r);
}

#[test]
fn curves_increase_from_start_to_end() {
    for kind in all_kinds() {
        let quarter = position_at(kind, 250_000, false);
        let three_quarter = position_at(kind, 750_000, false);
        assert!(quarter <= three_quarter, "{:?}", kind);
    }
}
