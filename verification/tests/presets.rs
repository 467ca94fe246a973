use beat_curve::curve::Curve;
use beat_curve::geometry::Pos;
use beat_curve::point::CurvePoint;

fn first(x: i64, y: i64) -> CurvePoint {
    CurvePoint::First(Pos { x, y })
}

fn inner(x: i64, y: i64) -> CurvePoint {
    CurvePoint::Inner(Pos { x, y })
}

fn bezier(x: i64, y: i64) -> CurvePoint {
    CurvePoint::Bezier(Pos { x, y })
}

fn last(x: i64, y: i64) -> CurvePoint {
    CurvePoint::Last(Pos { x, y })
}

#[test]
fn fixed_is_one_level_arc() {
    let curve = Curve::fixed();
    assert!(curve.linked());
    assert_eq!(curve.points(), &vec![first(0, 0), bezier(2_000, 0), last(4_000, 0)]);
    assert_eq!(curve.len(), 3);
    assert_eq!(curve.segment_count(), 1);
}

#[test]
fn alternating_is_a_zigzag() {
    let curve = Curve::alternating();
    assert!(curve.linked());
    assert_eq!(
        curve.points(),
        &vec![
            first(0, 100_000),
            bezier(500, 50_000),
            inner(1_000, 0),
            bezier(1_500, 50_000),
            inner(2_000, 100_000),
            bezier(2_500, 50_000),
            inner(3_000, 0),
            bezier(3_500, 50_000),
            last(4_000, 100_000),
        ]
    );
    assert_eq!(curve.segment_count(), 4);
}

#[test]
fn forward_is_a_rising_saw() {
    let curve = Curve::forward();
    assert!(!curve.linked());
    assert_eq!(
        curve.points(),
        &vec![
            first(0, 100_000),
            bezier(500, 50_000),
            inner(1_000, 0),
            bezier(1_000, 50_000),
            inner(1_000, 100_000),
            bezier(1_500, 50_000),
            inner(2_000, 0),
            bezier(2_000, 50_000),
            inner(2_000, 100_000),
            bezier(2_500, 50_000),
            inner(3_000, 0),
            bezier(3_000, 50_000),
            inner(3_000, 100_000),
            bezier(3_500, 50_000),
            last(4_000, 0),
        ]
    );
}

#[test]
fn backward_is_a_falling_saw() {
    let curve = Curve::backward();
    assert!(!curve.linked());
    assert_eq!(
        curve.points(),
        &vec![
            first(0, 0),
            bezier(500, 50_000),
            inner(1_000, 100_000),
            bezier(1_000, 50_000),
            inner(1_000, 0),
            bezier(1_500, 50_000),
            inner(2_000, 100_000),
            bezier(2_000, 50_000),
            inner(2_000, 0),
            bezier(2_500, 50_000),
            inner(3_000, 100_000),
            bezier(3_000, 50_000),
            inner(3_000, 0),
            bezier(3_500, 50_000),
            last(4_000, 100_000),
        ]
    );
}

#[test]
fn default_is_alternating() {
    let curve = Curve::default();
    assert_eq!(curve.points(), Curve::alternating().points());
    assert_eq!(curve.linked(), Curve::alternating().linked());
}

#[test]
fn every_preset_is_a_curve() {
    for curve in [Curve::forward(), Curve::backward(), Curve::alternating(), Curve::fixed()] {
        assert!(Curve::is_valid(curve.linked(), curve.points()));
        assert_eq!(curve.len() % 2, 1);
        assert!(curve.len() >= 3);
        assert!(curve.points()[0].is_start());
        assert!(curve.points()[curve.len() - 1].is_end());
        for (i, point) in curve.points().iter().enumerate() {
            assert_eq!(point.is_bezier(), i % 2 == 1);
        }
    }
}

#[test]
fn linear_points_of_one_point_is_a_lone_start() {
    assert_eq!(Curve::linear_points(vec![(7, 9)]), vec![first(7, 9)]);
}

#[test]
fn linear_points_puts_controls_halfway() {
    assert_eq!(
        Curve::linear_points(vec![(0, 0), (1_001, 31), (4_000, 100_000)]),
        vec![
            first(0, 0),
            bezier(500, 15),
            inner(1_001, 31),
            bezier(2_500, 50_015),
            last(4_000, 100_000),
        ]
    );
}

#[test]
fn linear_points_rounds_negative_midpoints_down() {
    assert_eq!(
        Curve::linear_points(vec![(-3, -1), (0, 0)]),
        vec![first(-3, -1), bezier(-2, -1), last(0, 0)]
    );
}

#[test]
fn clone_keeps_points_and_link() {
    let mut curve = Curve::forward();
    curve.insert_point_at(Pos { x: 250, y: 10 });
    let copy = curve.clone();
    assert_eq!(copy.points(), curve.points());
    assert_eq!(copy.linked(), curve.linked());
}
