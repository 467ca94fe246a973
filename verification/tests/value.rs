use beat_curve::bezier::{Segment, MAX_DENOMINATOR, PRECISION};
use beat_curve::curve::{Curve, CurveError};
use beat_curve::geometry::{Pos, UNITS, X_MAX, Y_MAX};
use beat_curve::tempo::{beat_position, MS_PER_BEAT};

fn value(curve: &Curve, x: i64) -> i64 {
    curve.value(x).unwrap()
}

fn steps(value: i64) -> f64 {
    value as f64 / UNITS as f64
}

#[test]
fn search_constants() {
    assert_eq!(PRECISION, 5);
    assert_eq!(MAX_DENOMINATOR, 1 << 24);
    assert_eq!(MS_PER_BEAT, 500);
}

#[test]
fn fixed_is_at_the_top_everywhere() {
    let curve = Curve::fixed();
    for x in 0..=X_MAX {
        assert_eq!(curve.value(x), Ok(Y_MAX));
    }
}

#[test]
fn alternating_turns_on_every_beat() {
    let curve = Curve::alternating();
    assert_eq!(value(&curve, 0), 391);
    assert_eq!(value(&curve, 1_000), 99_609);
    assert_eq!(value(&curve, 2_000), 391);
    assert_eq!(value(&curve, 3_000), 99_609);
    assert_eq!(value(&curve, 4_000), 0);
    let expected = [0.0, 100.0, 0.0, 100.0, 0.0];
    for (beat, want) in expected.iter().enumerate() {
        let got = steps(value(&curve, beat as i64 * UNITS));
        assert!((got - want).abs() < 0.5, "beat {beat}: {got}");
    }
}

#[test]
fn alternating_between_the_beats() {
    let curve = Curve::alternating();
    assert_eq!(value(&curve, 250), 25_000);
    assert_eq!(value(&curve, 500), 50_000);
    assert_eq!(value(&curve, 999), 99_609);
    assert_eq!(value(&curve, 1_500), 50_000);
    assert_eq!(value(&curve, 2_500), 50_000);
    assert_eq!(value(&curve, 3_999), 391);
}

#[test]
fn forward_jumps_on_the_beat() {
    let curve = Curve::forward();
    assert_eq!(value(&curve, 0), 391);
    assert_eq!(value(&curve, 500), 50_000);
    assert_eq!(value(&curve, 999), 99_609);
    assert_eq!(value(&curve, 1_000), 391);
    assert_eq!(value(&curve, 3_999), 99_609);
    assert_eq!(value(&curve, 4_000), 100_000);
}

#[test]
fn backward_jumps_on_the_beat() {
    let curve = Curve::backward();
    assert_eq!(value(&curve, 0), 99_609);
    assert_eq!(value(&curve, 250), 75_000);
    assert_eq!(value(&curve, 999), 391);
    assert_eq!(value(&curve, 1_000), 99_609);
    assert_eq!(value(&curve, 4_000), 0);
}

#[test]
fn right_edge_is_exactly_the_last_point() {
    for curve in [Curve::forward(), Curve::backward(), Curve::alternating(), Curve::fixed()] {
        let last = curve.points()[curve.len() - 1].pos();
        assert_eq!(curve.value(X_MAX), Ok(Y_MAX - last.y));
    }
    let mut curve = Curve::backward();
    curve.move_point(14, Pos { x: 0, y: 12_345 });
    assert_eq!(curve.value(X_MAX), Ok(Y_MAX - 12_345));
}

#[test]
fn left_edge_of_a_level_arc_is_exactly_the_first_point() {
    let mut curve = Curve::fixed();
    curve.move_point(0, Pos { x: 0, y: 30_000 });
    curve.move_point(1, Pos { x: 700, y: 30_000 });
    assert_eq!(curve.value(0), Ok(Y_MAX - 30_000));
}

#[test]
fn outside_the_domain_is_turned_down() {
    let curve = Curve::alternating();
    assert_eq!(curve.value(-1), Err(CurveError::BeatOutOfRange(-1)));
    assert_eq!(curve.value(X_MAX + 1), Err(CurveError::BeatOutOfRange(4_001)));
    assert_eq!(curve.value(i64::MIN), Err(CurveError::BeatOutOfRange(i64::MIN)));
    assert_eq!(curve.value(i64::MAX), Err(CurveError::BeatOutOfRange(i64::MAX)));
    assert!(curve.value(0).is_ok());
    assert!(curve.value(X_MAX).is_ok());
}

#[test]
fn values_stay_in_range() {
    for curve in [Curve::forward(), Curve::backward(), Curve::alternating(), Curve::fixed()] {
        for x in 0..=X_MAX {
            let v = value(&curve, x);
            assert!((0..=Y_MAX).contains(&v));
        }
    }
}

#[test]
fn alternating_has_no_jumps() {
    // The zigzag has slope 100, and a sample may lie up to PRECISION away
    // from the position asked for on either side.
    let curve = Curve::alternating();
    let bound = 100 * (1 + 2 * PRECISION);
    for x in 0..X_MAX {
        let here = value(&curve, x);
        let next = value(&curve, x + 1);
        assert!((here - next).abs() <= bound, "jump at {x}: {here} to {next}");
    }
}

#[test]
fn first_after_finds_the_first_point_to_the_right() {
    let curve = Curve::alternating();
    assert_eq!(curve.first_after(-1), 0);
    assert_eq!(curve.first_after(0), 1);
    assert_eq!(curve.first_after(499), 1);
    assert_eq!(curve.first_after(500), 2);
    assert_eq!(curve.first_after(3_999), 8);
    assert_eq!(curve.first_after(4_000), 9);
    let saw = Curve::forward();
    assert_eq!(saw.first_after(999), 2);
    assert_eq!(saw.first_after(1_000), 5);
}

#[test]
fn segments_are_the_triples_of_points() {
    let curve = Curve::alternating();
    assert_eq!(
        curve.segment(0),
        Segment {
            start: Pos { x: 0, y: 100_000 },
            control: Pos { x: 500, y: 50_000 },
            end: Pos { x: 1_000, y: 0 },
        }
    );
    assert_eq!(
        curve.segment(3),
        Segment {
            start: Pos { x: 3_000, y: 0 },
            control: Pos { x: 3_500, y: 50_000 },
            end: Pos { x: 4_000, y: 100_000 },
        }
    );
    for j in 0..curve.segment_count() - 1 {
        assert_eq!(curve.segment(j).end, curve.segment(j + 1).start);
    }
}

fn hump() -> Segment {
    Segment {
        start: Pos { x: 0, y: 0 },
        control: Pos { x: 1_000, y: 100_000 },
        end: Pos { x: 4_000, y: 0 },
    }
}

#[test]
fn sample_blends_the_three_points() {
    let arc = hump();
    assert_eq!(arc.sample(1, 2), Pos { x: 1_500, y: 50_000 });
    assert_eq!(arc.sample(1, 4), Pos { x: 625, y: 37_500 });
    assert_eq!(arc.sample(3, 4), Pos { x: 2_625, y: 37_500 });
    assert_eq!(arc.sample(1, 3), Pos { x: 889, y: 44_444 });
    assert_eq!(arc.sample(0, 1), arc.start);
    assert_eq!(arc.sample(1, 1), arc.end);
    assert_eq!(arc.sample(0, 16_777_216), arc.start);
    assert_eq!(arc.sample(16_777_216, 16_777_216), arc.end);
}

#[test]
fn solve_finds_the_height_above_a_position() {
    let arc = hump();
    assert_eq!(arc.solve(0), 390);
    assert_eq!(arc.solve(1_000), 46_472);
    assert_eq!(arc.solve(1_234), 49_065);
    assert_eq!(arc.solve(1_500), 50_000);
    assert_eq!(arc.solve(2_000), 47_253);
    assert_eq!(arc.solve(3_000), 29_229);
    assert_eq!(arc.solve(4_000), 98);
}

#[test]
fn solve_comes_within_the_precision() {
    // Along this straight arc y is 25 times x, so a sample less than
    // PRECISION away from x has a height within 25 * PRECISION of 25 * x.
    let arc = Segment {
        start: Pos { x: 0, y: 0 },
        control: Pos { x: 2_000, y: 50_000 },
        end: Pos { x: 4_000, y: 100_000 },
    };
    for x in 0..=X_MAX {
        let y = arc.solve(x);
        assert!((y - 25 * x).abs() <= 25 * PRECISION, "at {x}: {y}");
    }
}

#[test]
fn solve_on_a_level_arc_is_its_height() {
    let arc = Segment {
        start: Pos { x: 0, y: 7 },
        control: Pos { x: 3, y: 7 },
        end: Pos { x: 4_000, y: 7 },
    };
    for x in [0, 1, 2_000, 3_999, 4_000] {
        assert_eq!(arc.solve(x), 7);
    }
}

#[test]
fn solve_gives_up_after_twenty_four_samples() {
    // x falls along this arc, so the search for a position the arc never
    // comes close to runs to its bound and still returns a height of the
    // arc.
    let arc = Segment {
        start: Pos { x: 4_000, y: 0 },
        control: Pos { x: 4_000, y: 50_000 },
        end: Pos { x: 4_000, y: 100_000 },
    };
    let y = arc.solve(0);
    assert_eq!(y, 0);
    let y = arc.solve(i64::MAX);
    assert_eq!(y, 100_000);
}

#[test]
fn beat_position_wraps_every_four_beats() {
    assert_eq!(beat_position(0), 0);
    assert_eq!(beat_position(250), 500);
    assert_eq!(beat_position(500), 1_000);
    assert_eq!(beat_position(1_999), 3_998);
    assert_eq!(beat_position(2_000), 0);
    assert_eq!(beat_position(2_250), 500);
    assert_eq!(beat_position(-250), -500);
    assert_eq!(beat_position(-2_000), 0);
    assert_eq!(beat_position(i64::MAX), (2 * (i64::MAX as i128) % 4_000) as i64);
}
