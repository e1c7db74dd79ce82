use artworks::fixed::UNIT;
use artworks::random_source::UniformSource;

#[test]
fn tape_replays_in_order_and_cycles() {
    let mut src = UniformSource::from_tape(vec![1, 2, 3]);
    let drawn: Vec<i64> = (0..7).map(|_| src.next_unit()).collect();
    assert_eq!(drawn, vec![1, 2, 3, 1, 2, 3, 1]);
}

#[test]
fn empty_tape_draws_zeros() {
    let mut src = UniformSource::from_tape(vec![]);
    assert_eq!(src.next_unit(), 0);
    assert_eq!(src.next_unit(), 0);
}

#[test]
fn seeded_stream_is_reproducible() {
    let mut a = UniformSource::from_seed(0xDEAD_BEEF);
    let mut b = UniformSource::from_seed(0xDEAD_BEEF);
    for _ in 0..50 {
        assert_eq!(a.next_unit(), b.next_unit());
    }
}

#[test]
fn seeded_draws_are_unit_fractions() {
    let mut src = UniformSource::from_seed(41);
    let mut seen_large = false;
    let mut seen_small = false;
    for _ in 0..200 {
        let d = src.next_unit();
        assert!(0 <= d && d < UNIT);
        if d >= UNIT / 2 {
            seen_large = true;
        } else {
            seen_small = true;
        }
    }
    // the stream actually moves around the interval
    assert!(seen_large && seen_small);
}

#[test]
fn different_seeds_diverge() {
    let mut a = UniformSource::from_seed(1);
    let mut b = UniformSource::from_seed(2);
    let da: Vec<i64> = (0..4).map(|_| a.next_unit()).collect();
    let db: Vec<i64> = (0..4).map(|_| b.next_unit()).collect();
    assert_ne!(da, db);
}
