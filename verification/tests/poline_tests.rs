use artworks::fixed::UNIT;
use artworks::pacing::{PosFunctions, PositionKind};
use artworks::poline::{
    generate_triple_palette, get_random_color_palette, hsl_to_point, point_to_hsl,
    random_hsl_pair, random_hsl_triple, ColorPoint, Hsla, PaletteError, PlanarPoint,
    FULL_CIRCLE,
};
use artworks::random_source::UniformSource;

fn tape(values: &[i64]) -> UniformSource {
    UniformSource::from_tape(values.to_vec())
}

/// The emitted color a palette anchor maps to, going the same way the
/// generator does: into the planar space and back.
fn converted(anchor: &ColorPoint) -> Hsla {
    let c = point_to_hsl(&hsl_to_point(anchor));
    Hsla { hue: c.hue / 360, sat: c.sat, light: c.light, alpha: UNIT }
}

#[test]
fn palette_has_exactly_the_requested_length() {
    for n in [2usize, 3, 4, 7, 100] {
        let mut src = UniformSource::from_seed(9);
        let pal = get_random_color_palette(n, &PosFunctions::LinearPosition, &mut src).unwrap();
        assert_eq!(pal.len(), n);
    }
}

#[test]
fn length_zero_is_refused() {
    let mut src = tape(&[1, 2, 3, 4, 5, 6]);
    let r = get_random_color_palette(0, &PosFunctions::LinearPosition, &mut src);
    assert_eq!(r, Err(PaletteError::InvalidLength));
    // nothing was drawn: the tape still starts at its first entry
    assert_eq!(src.next_unit(), 1);
}

#[test]
fn length_one_is_refused() {
    let mut src = tape(&[1, 2, 3, 4, 5, 6]);
    let r = get_random_color_palette(1, &PosFunctions::LinearPosition, &mut src);
    assert_eq!(r, Err(PaletteError::InvalidLength));
    assert_eq!(src.next_unit(), 1);
}

#[test]
fn triple_palette_refuses_short_lengths() {
    for n in [0usize, 1] {
        let mut src = UniformSource::from_seed(3);
        let r = generate_triple_palette(n, &PosFunctions::ArcPosition, &mut src);
        assert_eq!(r, Err(PaletteError::InvalidLength));
    }
}

#[test]
fn identical_seeds_give_identical_palettes() {
    let mut a = UniformSource::from_seed(12_345);
    let mut b = UniformSource::from_seed(12_345);
    let pa = get_random_color_palette(16, &PosFunctions::SinusoidalPosition, &mut a).unwrap();
    let pb = get_random_color_palette(16, &PosFunctions::SinusoidalPosition, &mut b).unwrap();
    assert_eq!(pa, pb);
}

#[test]
fn different_seeds_give_different_palettes() {
    let mut a = UniformSource::from_seed(1);
    let mut b = UniformSource::from_seed(2);
    let pa = get_random_color_palette(4, &PosFunctions::LinearPosition, &mut a).unwrap();
    let pb = get_random_color_palette(4, &PosFunctions::LinearPosition, &mut b).unwrap();
    assert_ne!(pa, pb);
}

#[test]
fn every_hue_is_a_normalized_turn_fraction() {
    let choices = [
        PosFunctions::LinearPosition,
        PosFunctions::ExponentialPosition,
        PosFunctions::QuadraticPosition,
        PosFunctions::CubicPosition,
        PosFunctions::QuarticPosition,
        PosFunctions::SinusoidalPosition,
        PosFunctions::AsinusoidalPosition,
        PosFunctions::ArcPosition,
        PosFunctions::SmoothStepPosition,
        PosFunctions::Custom {
            fx: PositionKind::Arc,
            fy: PositionKind::Linear,
            fz: PositionKind::Quartic,
        },
    ];
    let mut seed: u64 = 7;
    for choice in choices {
        for n in [2usize, 5, 33] {
            let mut src = UniformSource::from_seed(seed);
            seed += 1;
            let pal = get_random_color_palette(n, &choice, &mut src).unwrap();
            for c in &pal {
                assert!(0 <= c.hue && c.hue < UNIT, "hue {} out of range", c.hue);
                assert_eq!(c.alpha, UNIT);
            }
        }
    }
}

#[test]
fn concrete_scenario_fixed_draws() {
    // draws, in consumption order: hue0, sat0, sat1, light0 residual,
    // light1 residual, hue1 offset
    let mut src = tape(&[0, 500_000, 500_000, 600_000, 700_000, 0]);
    let pal = get_random_color_palette(3, &PosFunctions::LinearPosition, &mut src).unwrap();

    // the drawn anchors, computed from the fixed draws by hand
    let a0 = ColorPoint { hue: 0, sat: 500_000, light: 870_000 };
    let a1 = ColorPoint { hue: 60_000_000, sat: 500_000, light: 440_000 };

    // anchor 0 sits on the zero-hue axis with an even lightness, so its
    // conversion is exact; the first palette color is the anchor itself
    assert_eq!(pal[0], Hsla { hue: 0, sat: 500_000, light: 870_000, alpha: UNIT });

    // the planar image of anchor 0 is exactly (0.935, 0.5, 0.5)
    let p1 = hsl_to_point(&a0);
    assert_eq!(p1, PlanarPoint { x: 935_000, y: 500_000, z: 500_000 });

    // the middle color is the planar midpoint of the two anchors, converted
    let p2 = hsl_to_point(&a1);
    let mid = PlanarPoint {
        x: (p1.x + p2.x) / 2,
        y: (p1.y + p2.y) / 2,
        z: (p1.z + p2.z) / 2,
    };
    let e = point_to_hsl(&mid);
    let expected = Hsla { hue: e.hue / 360, sat: e.sat, light: e.light, alpha: UNIT };
    assert_eq!(pal[1], expected);

    // and the last color is the second anchor, converted
    assert_eq!(pal[2], converted(&a1));

    // against the real-valued reference, every channel lands within 1e-4:
    // the middle color is hsla(0.053528, 0.5, 0.577344, 1) and the last is
    // hsla(1/6, 0.5, 0.44, 1)
    assert!((pal[1].hue - 53_528).abs() <= 100, "mid hue {}", pal[1].hue);
    assert!((pal[1].light - 577_344).abs() <= 100, "mid light {}", pal[1].light);
    assert_eq!(pal[1].sat, 500_000);
    assert!((pal[2].hue - 166_667).abs() <= 100, "last hue {}", pal[2].hue);
    assert!((pal[2].light - 440_000).abs() <= 100, "last light {}", pal[2].light);
    assert_eq!(pal[2].sat, 500_000);
}

#[test]
fn custom_linear_equals_linear_pacing() {
    let draws = [123_456, 42, 999_999, 87_654, 500_000, 250_000];
    let custom = PosFunctions::Custom {
        fx: PositionKind::Linear,
        fy: PositionKind::Linear,
        fz: PositionKind::Linear,
    };
    let mut a = tape(&draws);
    let mut b = tape(&draws);
    let pa = get_random_color_palette(9, &custom, &mut a).unwrap();
    let pb = get_random_color_palette(9, &PosFunctions::LinearPosition, &mut b).unwrap();
    assert_eq!(pa, pb);
}

#[test]
fn anchor_exactness_under_every_pacing() {
    let draws = [317_000, 82_000, 604_000, 911_000, 46_000, 733_000];
    let choices = [
        PosFunctions::LinearPosition,
        PosFunctions::ExponentialPosition,
        PosFunctions::QuadraticPosition,
        PosFunctions::CubicPosition,
        PosFunctions::QuarticPosition,
        PosFunctions::SinusoidalPosition,
        PosFunctions::AsinusoidalPosition,
        PosFunctions::ArcPosition,
        PosFunctions::SmoothStepPosition,
    ];
    // the anchors the tape determines, computed by hand from the draws
    let a0 = ColorPoint { hue: 360 * 317_000, sat: 82_000, light: 750_000 + 911_000 / 5 };
    let a1 = ColorPoint {
        hue: (360 * 317_000 + 60 * UNIT + 180 * 733_000) % FULL_CIRCLE,
        sat: 604_000,
        light: 300_000 + 46_000 / 5,
    };
    for choice in choices {
        let mut src = tape(&draws);
        let pal = get_random_color_palette(5, &choice, &mut src).unwrap();
        assert_eq!(pal[0], converted(&a0), "{:?}", choice);
        assert_eq!(pal[4], converted(&a1), "{:?}", choice);

        // and in raw channels, each end matches its anchor within the
        // planar conversion's tolerance
        for (got, want) in [(&pal[0], &a0), (&pal[4], &a1)] {
            let mut dh = (360 * got.hue - want.hue).rem_euclid(FULL_CIRCLE);
            if dh > FULL_CIRCLE / 2 {
                dh = FULL_CIRCLE - dh;
            }
            assert!(dh <= 2_400, "{:?}: hue off by {} udeg", choice, dh);
            assert!((got.light - want.light).abs() <= 8, "{:?}", choice);
            assert_eq!(got.sat, want.sat, "{:?}", choice);
        }
    }
}

#[test]
fn round_trip_stays_within_tolerance() {
    // micro-unit quantization of the planar point bounds how well the
    // angle can come back: allow a small tolerance on hue (in
    // micro-degrees, modulo the full circle) and on lightness; saturation
    // must come back exactly
    let hues = [0i64, 30, 45, 90, 123, 180, 222, 270, 315, 359];
    let lights = [100_000i64, 300_000, 500_000, 870_000, UNIT];
    for h in hues {
        for l in lights {
            let c = ColorPoint { hue: h * UNIT, sat: 654_321, light: l };
            let r = point_to_hsl(&hsl_to_point(&c));
            assert_eq!(r.sat, c.sat);
            let mut dh = (r.hue - c.hue).rem_euclid(FULL_CIRCLE);
            if dh > FULL_CIRCLE / 2 {
                dh = FULL_CIRCLE - dh;
            }
            assert!(dh <= 2_400, "hue {}deg light {}: error {} udeg", h, l, dh);
            assert!((r.light - c.light).abs() <= 8, "hue {}deg light {}", h, l);
        }
    }
}

#[test]
fn round_trip_within_spec_tolerance_for_palette_lightness() {
    // at the lightness levels palettes actually use (the anchor bands start
    // at 0.3), every channel round-trips within 1e-5 of its unit interval:
    // hue within 3600 micro-degrees of the circle, lightness within 10
    let mut hue: i64 = 1;
    let mut light: i64 = 150_000;
    while light <= UNIT {
        let c = ColorPoint { hue: hue % FULL_CIRCLE, sat: 1, light };
        let r = point_to_hsl(&hsl_to_point(&c));
        let mut dh = (r.hue - c.hue).rem_euclid(FULL_CIRCLE);
        if dh > FULL_CIRCLE / 2 {
            dh = FULL_CIRCLE - dh;
        }
        assert!(dh <= 3_600, "hue {} light {}: error {} udeg", c.hue, light, dh);
        assert!((r.light - c.light).abs() <= 10, "hue {} light {}", c.hue, light);
        hue += 37_924_211;
        light += 8_191;
    }
}

#[test]
fn round_trip_exact_on_cardinal_hues() {
    for hue in [0i64, 90_000_000, 180_000_000, 270_000_000] {
        let c = ColorPoint { hue, sat: 250_000, light: 640_000 };
        assert_eq!(point_to_hsl(&hsl_to_point(&c)), c);
    }
}

#[test]
fn degenerate_center_maps_to_hue_zero() {
    let c = ColorPoint { hue: 123_000_000, sat: 500_000, light: 0 };
    let r = point_to_hsl(&hsl_to_point(&c));
    assert_eq!(r.hue, 0);
    assert_eq!(r.light, 0);
    assert_eq!(r.sat, 500_000);
}

#[test]
fn pair_anchor_offset_hue_formula() {
    let mut src = tape(&[400_000]);
    let (a0, a1) = random_hsl_pair(90_000_000, (10, 20), (30, 40), &mut src);
    assert_eq!(a0, ColorPoint { hue: 90_000_000, sat: 10, light: 30 });
    // 90deg + 60deg + 0.4 * 180deg = 222deg
    assert_eq!(a1, ColorPoint { hue: 222_000_000, sat: 20, light: 40 });
}

#[test]
fn triple_anchor_offsets_chain_from_previous() {
    let mut src = tape(&[500_000, 500_000]);
    let (a0, a1, a2) = random_hsl_triple(0, (1, 2, 3), (4, 5, 6), &mut src);
    assert_eq!(a0.hue, 0);
    // 0 + 60 + 90 = 150deg
    assert_eq!(a1.hue, 150_000_000);
    // 150 + 60 + 90 = 300deg: offset from the anchor before it
    assert_eq!(a2.hue, 300_000_000);
    assert_eq!((a0.sat, a1.sat, a2.sat), (1, 2, 3));
    assert_eq!((a0.light, a1.light, a2.light), (4, 5, 6));
}

#[test]
fn triple_palette_split_holds_every_anchor_once() {
    // nine draws: hue0, three saturations, three lightness residuals,
    // then the two hue offsets
    let draws = [111_000, 200_000, 300_000, 400_000, 500_000, 600_000, 700_000, 250_000,
        750_000];
    let a0 = ColorPoint { hue: 360 * 111_000, sat: 200_000, light: 750_000 + 500_000 / 5 };
    let a1 = ColorPoint {
        hue: (a0.hue + 60 * UNIT + 180 * 250_000) % FULL_CIRCLE,
        sat: 300_000,
        light: 300_000 + 600_000 / 5,
    };
    let a2 = ColorPoint {
        hue: (a1.hue + 60 * UNIT + 180 * 750_000) % FULL_CIRCLE,
        sat: 400_000,
        light: 300_000 + 700_000 / 5,
    };

    // length 5: first segment [a0, mid, a1], second segment adds [mid, a2]
    let mut src = tape(&draws);
    let pal = generate_triple_palette(5, &PosFunctions::LinearPosition, &mut src).unwrap();
    assert_eq!(pal.len(), 5);
    assert_eq!(pal[0], converted(&a0));
    assert_eq!(pal[2], converted(&a1));
    assert_eq!(pal[4], converted(&a2));

    // length 3: exactly the three anchors
    let mut src = tape(&draws);
    let pal = generate_triple_palette(3, &PosFunctions::LinearPosition, &mut src).unwrap();
    assert_eq!(pal.len(), 3);
    assert_eq!(pal[0], converted(&a0));
    assert_eq!(pal[1], converted(&a1));
    assert_eq!(pal[2], converted(&a2));

    // length 2: the first segment's two endpoints
    let mut src = tape(&draws);
    let pal = generate_triple_palette(2, &PosFunctions::LinearPosition, &mut src).unwrap();
    assert_eq!(pal.len(), 2);
    assert_eq!(pal[0], converted(&a0));
    assert_eq!(pal[1], converted(&a1));
}

#[test]
fn triple_palette_is_deterministic() {
    let mut a = UniformSource::from_seed(777);
    let mut b = UniformSource::from_seed(777);
    let pa = generate_triple_palette(11, &PosFunctions::SmoothStepPosition, &mut a).unwrap();
    let pb = generate_triple_palette(11, &PosFunctions::SmoothStepPosition, &mut b).unwrap();
    assert_eq!(pa, pb);
    assert_eq!(pa.len(), 11);
}
