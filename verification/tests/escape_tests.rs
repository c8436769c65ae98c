use mandelbrot::escape::{escape_time, escape_time_batch, LANES};
use mandelbrot::fixed::Fixed;

fn zero() -> Fixed {
    Fixed::from_int(0)
}

#[test]
fn origin_never_escapes() {
    for m in [1u32, 2, 7, 100, 255] {
        assert_eq!(escape_time(zero(), zero(), m), m);
    }
}

#[test]
fn known_escaping_point() {
    assert_eq!(escape_time(Fixed::from_int(2), Fixed::from_int(0), 100), 2);
}

#[test]
fn interior_point() {
    assert_eq!(escape_time(Fixed::from_int(-1), Fixed::from_int(0), 50), 50);
}

#[test]
fn budget_saturation_once_escaped() {
    // The point 2 + 0i is seen escaped at iteration 2; any budget of at
    // least 2 gives the same answer, smaller budgets are capped.
    let two = Fixed::from_int(2);
    assert_eq!(escape_time(two, zero(), 2), 2);
    assert_eq!(escape_time(two, zero(), 3), 2);
    assert_eq!(escape_time(two, zero(), 10), 2);
    assert_eq!(escape_time(two, zero(), 1000), 2);
    assert_eq!(escape_time(two, zero(), 1), 1);
    assert_eq!(escape_time(two, zero(), 0), 0);
}

#[test]
fn far_point_escapes_at_one() {
    // -2.5 + 0i: the first iteration already sees |z|^2 = 6.25 > 4.
    let raw: i64 = -5 * 4294967296 / 2;
    let x = Fixed::checked_from_raw(raw).unwrap();
    assert_eq!(escape_time(x, zero(), 20), 1);
}

#[test]
fn fractional_interior_point() {
    // 0.25 + 0i is inside the set (the orbit climbs toward 0.5).
    let quarter = Fixed::checked_from_raw(1073741824).unwrap();
    assert_eq!(escape_time(quarter, zero(), 100), 100);
}

#[test]
fn results_are_bounded() {
    let samples: [(i64, i64); 6] = [
        (0, 0),
        (4294967296, 4294967296),
        (-6442450944, 1073741824),
        (2147483648, -2147483648),
        (4611686018427387904, 4611686018427387904),
        (-4611686018427387904, 0),
    ];
    for (rx, ry) in samples {
        let x = Fixed::checked_from_raw(rx).unwrap();
        let y = Fixed::checked_from_raw(ry).unwrap();
        for m in [0u32, 1, 17, 64] {
            assert!(escape_time(x, y, m) <= m);
        }
    }
}

#[test]
fn batch_matches_scalar() {
    let mut xs: [Fixed; 16] = [Fixed::from_int(0); 16];
    let mut ys: [Fixed; 16] = [Fixed::from_int(0); 16];
    // A spread of points: escaping early, escaping late, and interior.
    let raws: [(i64, i64); 16] = [
        (0, 0),
        (8589934592, 0),
        (-4294967296, 0),
        (1073741824, 1073741824),
        (-6442450944, 0),
        (2147483648, 2147483648),
        (-2147483648, -2147483648),
        (4294967296, 4294967296),
        (1288490188, 1288490188),
        (-3221225472, 429496729),
        (429496729, -429496729),
        (12884901888, -12884901888),
        (-858993459, 858993459),
        (3006477107, 0),
        (0, 3221225472),
        (-4611686018427387904, 4611686018427387904),
    ];
    for i in 0..16usize {
        xs[i] = Fixed::checked_from_raw(raws[i].0).unwrap();
        ys[i] = Fixed::checked_from_raw(raws[i].1).unwrap();
    }
    for m in [0u32, 1, 5, 40, 200] {
        let batch = escape_time_batch(&xs, &ys, m);
        assert_eq!(batch.len(), LANES);
        for i in 0..16usize {
            assert_eq!(batch[i], escape_time(xs[i], ys[i], m));
        }
    }
}

#[test]
fn batch_lanes_escape_at_different_steps() {
    // Lane 0 escapes at step 1, lane 1 at step 2, lane 2 never within the
    // budget, the rest immediately after the first update; per-lane counts
    // must equal independent scalar calls.
    let mut xs: [Fixed; 16] = [Fixed::from_int(3); 16];
    let mut ys: [Fixed; 16] = [Fixed::from_int(0); 16];
    xs[0] = Fixed::checked_from_raw(-10737418240).unwrap();  // -2.5
    xs[1] = Fixed::from_int(2);
    xs[2] = Fixed::from_int(0);
    ys[2] = Fixed::from_int(0);
    let max: u32 = 20;
    let batch = escape_time_batch(&xs, &ys, max);
    assert_eq!(batch[0], 1);
    assert_eq!(batch[1], 2);
    assert_eq!(batch[2], 20);
    for i in 3..16usize {
        assert_eq!(batch[i], 1);
    }
    for i in 0..16usize {
        assert_eq!(batch[i], escape_time(xs[i], ys[i], max));
    }
}

#[test]
fn batch_early_exit_when_all_lanes_escape() {
    // Every lane escapes on the first iteration; a large budget must still
    // return immediately with the correct per-lane counts.
    let xs: [Fixed; 16] = [Fixed::from_int(3); 16];
    let ys: [Fixed; 16] = [Fixed::from_int(-3); 16];
    let batch = escape_time_batch(&xs, &ys, 1000000);
    for i in 0..16usize {
        assert_eq!(batch[i], 1);
    }
}

#[test]
fn batch_zero_budget() {
    let xs: [Fixed; 16] = [Fixed::from_int(2); 16];
    let ys: [Fixed; 16] = [Fixed::from_int(2); 16];
    let batch = escape_time_batch(&xs, &ys, 0);
    for i in 0..16usize {
        assert_eq!(batch[i], 0);
    }
}
