use beat_curve::curve::Curve;
use beat_curve::geometry::{Pos, X_MAX, Y_MAX};
use beat_curve::gesture::Gesture;
use beat_curve::point::CurvePoint;

fn first(x: i64, y: i64) -> CurvePoint {
    CurvePoint::First(Pos { x, y })
}

fn inner(x: i64, y: i64) -> CurvePoint {
    CurvePoint::Inner(Pos { x, y })
}

fn bezier(x: i64, y: i64) -> CurvePoint {
    CurvePoint::Bezier(Pos { x, y })
}

fn last(x: i64, y: i64) -> CurvePoint {
    CurvePoint::Last(Pos { x, y })
}

fn assert_is_curve(curve: &Curve) {
    let points = curve.points();
    assert!(points.len() >= 3);
    assert_eq!(points.len() % 2, 1);
    assert_eq!(points[0], first(0, points[0].pos().y));
    assert_eq!(points[points.len() - 1], last(X_MAX, points[points.len() - 1].pos().y));
    for (i, point) in points.iter().enumerate() {
        assert_eq!(point.is_bezier(), i % 2 == 1, "kind at {i}");
        if i > 0 && i < points.len() - 1 && i % 2 == 0 {
            assert!(point.is_inner(), "kind at {i}");
        }
        let pos = point.pos();
        assert!((0..=X_MAX).contains(&pos.x) && (0..=Y_MAX).contains(&pos.y));
        if i > 0 {
            assert!(points[i - 1].pos().x <= pos.x, "order at {i}");
        }
    }
    if curve.linked() {
        assert_eq!(points[0].pos().y, points[points.len() - 1].pos().y);
    }
    assert!(Curve::is_valid(curve.linked(), points));
}

#[test]
fn insert_in_the_middle_of_fixed_splits_it() {
    let mut curve = Curve::fixed();
    assert!(curve.insert_point_at(Pos { x: 2_000, y: 0 }));
    assert_eq!(
        curve.points(),
        &vec![first(0, 0), bezier(1_000, 0), inner(2_000, 0), bezier(3_000, 0), last(4_000, 0)]
    );
    for x in 0..=X_MAX {
        assert_eq!(curve.value(x), Ok(Y_MAX));
    }
    assert_is_curve(&curve);
}

#[test]
fn remove_after_insert_restores_fixed() {
    let mut curve = Curve::fixed();
    curve.insert_point_at(Pos { x: 2_000, y: 0 });
    assert!(curve.remove_point(2));
    assert_eq!(curve.points(), Curve::fixed().points());
    assert_eq!(curve.linked(), Curve::fixed().linked());
    assert_is_curve(&curve);
}

#[test]
fn insert_behind_a_structural_point() {
    // The first point right of 1000 is the control point, so the point in
    // front of it is the start: the new control point goes between the start
    // and the new point, and the old control point is straightened.
    let mut curve = Curve::fixed();
    assert!(curve.insert_point_at(Pos { x: 1_000, y: 40_000 }));
    assert_eq!(
        curve.points(),
        &vec![
            first(0, 0),
            bezier(500, 20_000),
            inner(1_000, 40_000),
            bezier(2_500, 20_000),
            last(4_000, 0),
        ]
    );
    assert_eq!(curve.value(0), Ok(99_844));
    assert_eq!(curve.value(500), Ok(80_000));
    assert_eq!(curve.value(1_000), Ok(60_039));
    assert_eq!(curve.value(2_000), Ok(73_281));
    assert_eq!(curve.value(4_000), Ok(100_000));
    assert_is_curve(&curve);
}

#[test]
fn insert_behind_a_control_point() {
    // The first point right of 3000 is the end, so the point in front of it
    // is the control point: the new control point goes between the new point
    // and the end, and the old control point is straightened.
    let mut curve = Curve::fixed();
    assert!(curve.insert_point_at(Pos { x: 3_000, y: 10_000 }));
    assert_eq!(
        curve.points(),
        &vec![
            first(0, 0),
            bezier(1_500, 5_000),
            inner(3_000, 10_000),
            bezier(3_500, 5_000),
            last(4_000, 0),
        ]
    );
    assert_is_curve(&curve);
}

#[test]
fn insert_on_the_x_of_a_control_point() {
    let mut curve = Curve::alternating();
    assert!(curve.insert_point_at(Pos { x: 500, y: 0 }));
    assert_eq!(curve.len(), 11);
    assert_eq!(
        &curve.points()[0..5],
        &[first(0, 100_000), bezier(250, 50_000), inner(500, 0), bezier(750, 0), inner(1_000, 0)]
    );
    assert_is_curve(&curve);
}

#[test]
fn insert_outside_the_open_domain_changes_nothing() {
    for x in [i64::MIN, -1, 0, X_MAX, X_MAX + 1, i64::MAX] {
        let mut curve = Curve::alternating();
        assert!(!curve.insert_point_at(Pos { x, y: 50_000 }));
        assert_eq!(curve.points(), Curve::alternating().points());
        assert!(curve.linked());
    }
}

#[test]
fn insert_clamps_y_into_the_domain() {
    let mut curve = Curve::fixed();
    assert!(curve.insert_point_at(Pos { x: 1_000, y: -7 }));
    assert_eq!(curve.points()[2], inner(1_000, 0));
    assert!(curve.insert_point_at(Pos { x: 3_000, y: Y_MAX + 1 }));
    assert_eq!(curve.points()[4], inner(3_000, Y_MAX));
    assert_is_curve(&curve);
}

#[test]
fn remove_takes_the_control_point_behind_and_straightens_the_one_in_front() {
    let mut curve = Curve::alternating();
    curve.move_point(1, Pos { x: 100, y: 7 });
    assert!(curve.remove_point(2));
    assert_eq!(
        curve.points(),
        &vec![
            first(0, 100_000),
            bezier(1_000, 100_000),
            inner(2_000, 100_000),
            bezier(2_500, 50_000),
            inner(3_000, 0),
            bezier(3_500, 50_000),
            last(4_000, 100_000),
        ]
    );
    assert_is_curve(&curve);
}

#[test]
fn remove_of_anything_but_an_inner_point_changes_nothing() {
    for i in [0, 1, 3, 8, 9, 100, usize::MAX] {
        let mut curve = Curve::alternating();
        assert!(!curve.remove_point(i));
        assert_eq!(curve.points(), Curve::alternating().points());
    }
}

#[test]
fn straighten_puts_a_control_point_halfway() {
    let mut curve = Curve::alternating();
    curve.move_point(3, Pos { x: 1_900, y: 3 });
    assert_eq!(curve.points()[3], bezier(1_900, 3));
    assert!(curve.straighten(3));
    assert_eq!(curve.points()[3], bezier(1_500, 50_000));
    assert_eq!(curve.points(), Curve::alternating().points());
}

#[test]
fn straighten_of_anything_but_a_control_point_changes_nothing() {
    for i in [0, 2, 8, 9, usize::MAX] {
        let mut curve = Curve::alternating();
        curve.move_point(2, Pos { x: 700, y: 3 });
        let before = curve.points().clone();
        assert!(!curve.straighten(i));
        assert_eq!(curve.points(), &before);
    }
}

#[test]
fn move_clamps_x_to_the_lower_neighbour() {
    let mut curve = Curve::alternating();
    assert!(!curve.move_point(2, Pos { x: 100, y: 10 }));
    assert_eq!(curve.points()[2], inner(500, 10));
    assert!(!curve.move_point(3, Pos { x: i64::MIN, y: 10 }));
    assert_eq!(curve.points()[3], bezier(500, 10));
    assert_is_curve(&curve);
}

#[test]
fn move_clamps_x_to_the_upper_neighbour() {
    let mut curve = Curve::alternating();
    curve.move_point(2, Pos { x: 3_000, y: 10 });
    assert_eq!(curve.points()[2], inner(1_500, 10));
    curve.move_point(1, Pos { x: i64::MAX, y: 10 });
    assert_eq!(curve.points()[1], bezier(1_500, 10));
    assert_is_curve(&curve);
}

#[test]
fn move_between_the_neighbours_lands_where_asked() {
    let mut curve = Curve::alternating();
    curve.move_point(2, Pos { x: 1_234, y: 5_678 });
    assert_eq!(curve.points()[2], inner(1_234, 5_678));
    curve.move_point(2, Pos { x: 500, y: 0 });
    assert_eq!(curve.points()[2], inner(500, 0));
    curve.move_point(2, Pos { x: 1_500, y: Y_MAX });
    assert_eq!(curve.points()[2], inner(1_500, Y_MAX));
    assert_is_curve(&curve);
}

#[test]
fn move_clamps_y_into_the_domain() {
    let mut curve = Curve::forward();
    curve.move_point(2, Pos { x: 1_000, y: -1 });
    assert_eq!(curve.points()[2], inner(1_000, 0));
    curve.move_point(2, Pos { x: 1_000, y: i64::MAX });
    assert_eq!(curve.points()[2], inner(1_000, Y_MAX));
    curve.move_point(0, Pos { x: 0, y: i64::MIN });
    assert_eq!(curve.points()[0], first(0, 0));
    assert_is_curve(&curve);
}

#[test]
fn move_leaves_the_x_of_an_end() {
    let mut curve = Curve::forward();
    assert!(!curve.move_point(0, Pos { x: 3_000, y: 42 }));
    assert_eq!(curve.points()[0], first(0, 42));
    assert!(!curve.move_point(14, Pos { x: -3_000, y: 43 }));
    assert_eq!(curve.points()[14], last(4_000, 43));
    assert_eq!(curve.points()[0], first(0, 42));
    assert_is_curve(&curve);
}

#[test]
fn move_without_such_a_point_changes_nothing() {
    let mut curve = Curve::forward();
    assert!(!curve.move_point(15, Pos { x: 1, y: 1 }));
    assert!(!curve.move_point(usize::MAX, Pos { x: 1, y: 1 }));
    assert!(!curve.drag_point(15, 1, 1));
    assert_eq!(curve.points(), Curve::forward().points());
}

#[test]
fn move_of_an_end_of_a_linked_curve_moves_both() {
    let mut curve = Curve::alternating();
    assert!(curve.move_point(0, Pos { x: 9, y: 25_000 }));
    assert_eq!(curve.points()[0], first(0, 25_000));
    assert_eq!(curve.points()[8], last(4_000, 25_000));
    assert!(curve.move_point(8, Pos { x: 9, y: 50_000 }));
    assert_eq!(curve.points()[0], first(0, 50_000));
    assert_eq!(curve.points()[8], last(4_000, 50_000));
    assert!(curve.move_point(8, Pos { x: 9, y: Y_MAX + 5 }));
    assert_eq!(curve.points()[0], first(0, Y_MAX));
    assert_eq!(curve.points()[8], last(4_000, Y_MAX));
    assert_is_curve(&curve);
}

#[test]
fn toggle_link_on_brings_the_other_end_along() {
    let mut curve = Curve::forward();
    assert_eq!(curve.points()[0].pos().y, 100_000);
    assert_eq!(curve.points()[14].pos().y, 0);
    assert!(curve.toggle_link(14));
    assert!(curve.linked());
    assert_eq!(curve.points()[0], first(0, 0));
    assert_eq!(curve.points()[14], last(4_000, 0));
    assert!(curve.move_point(0, Pos { x: 0, y: 60_000 }));
    assert_eq!(curve.points()[14], last(4_000, 60_000));
    assert!(curve.move_point(14, Pos { x: 0, y: 70_000 }));
    assert_eq!(curve.points()[0], first(0, 70_000));
    assert_is_curve(&curve);
}

#[test]
fn toggle_link_on_at_the_first_point_copies_its_height() {
    let mut curve = Curve::forward();
    assert!(curve.toggle_link(0));
    assert!(curve.linked());
    assert_eq!(curve.points()[0], first(0, 100_000));
    assert_eq!(curve.points()[14], last(4_000, 100_000));
}

#[test]
fn toggle_link_off_lets_the_ends_go_apart() {
    let mut curve = Curve::alternating();
    assert!(!curve.toggle_link(0));
    assert!(!curve.linked());
    assert_eq!(curve.points(), Curve::alternating().points());
    assert!(!curve.move_point(0, Pos { x: 0, y: 5 }));
    assert_eq!(curve.points()[0], first(0, 5));
    assert_eq!(curve.points()[8], last(4_000, 100_000));
    assert_is_curve(&curve);
}

#[test]
fn toggle_link_of_anything_but_an_end_changes_nothing() {
    for i in [1, 2, 7, 9, usize::MAX] {
        let mut curve = Curve::alternating();
        assert!(!curve.toggle_link(i));
        assert!(curve.linked());
        assert_eq!(curve.points(), Curve::alternating().points());
    }
}

#[test]
fn mirrors_only_at_the_ends_of_a_linked_curve() {
    let linked = Curve::alternating();
    assert!(linked.mirrors(0) && linked.mirrors(8));
    assert!(!linked.mirrors(1) && !linked.mirrors(4) && !linked.mirrors(9));
    let free = Curve::forward();
    assert!(!free.mirrors(0) && !free.mirrors(14) && !free.mirrors(2));
}

#[test]
fn clamp_to_neighbors_by_kind() {
    let curve = Curve::alternating();
    assert_eq!(curve.clamp_to_neighbors(2, 0), 500);
    assert_eq!(curve.clamp_to_neighbors(2, 9_999), 1_500);
    assert_eq!(curve.clamp_to_neighbors(2, 777), 777);
    assert_eq!(curve.clamp_to_neighbors(1, -5), 0);
    assert_eq!(curve.clamp_to_neighbors(1, 1_001), 1_000);
    assert_eq!(curve.clamp_to_neighbors(0, 777), 0);
    assert_eq!(curve.clamp_to_neighbors(8, 777), 4_000);
    assert_eq!(curve.clamp_to_neighbors(9, 777), 777);
}

#[test]
fn drag_moves_by_a_delta() {
    let mut curve = Curve::alternating();
    assert!(!curve.drag_point(2, 100, 250));
    assert_eq!(curve.points()[2], inner(1_100, 250));
    assert!(!curve.drag_point(2, -10_000, -10_000));
    assert_eq!(curve.points()[2], inner(500, 0));
    assert!(!curve.drag_point(2, i64::MAX, i64::MAX));
    assert_eq!(curve.points()[2], inner(1_500, Y_MAX));
    assert!(!curve.drag_point(2, i64::MIN, i64::MIN));
    assert_eq!(curve.points()[2], inner(500, 0));
    assert!(curve.drag_point(0, 5, -1_000));
    assert_eq!(curve.points()[0], first(0, 99_000));
    assert_eq!(curve.points()[8], last(4_000, 99_000));
    assert_is_curve(&curve);
}

#[test]
fn gestures_by_kind_of_point() {
    let mut curve = Curve::alternating();
    assert!(!curve.apply(0, Gesture::DoubleActivate));
    assert!(!curve.linked());
    assert!(curve.apply(8, Gesture::SecondaryActivate));
    assert!(curve.linked());
    assert!(!curve.apply(3, Gesture::Drag { dx: 400, dy: 0 }));
    assert_eq!(curve.points()[3], bezier(1_900, 50_000));
    assert!(curve.apply(3, Gesture::DoubleActivate));
    assert_eq!(curve.points()[3], bezier(1_500, 50_000));
    assert!(curve.apply(2, Gesture::SecondaryActivate));
    assert_eq!(curve.len(), 7);
    assert!(curve.apply(0, Gesture::Drag { dx: 0, dy: -1 }));
    assert_eq!(curve.points()[6], last(4_000, 99_999));
    assert!(!curve.apply(7, Gesture::DoubleActivate));
    assert!(!curve.apply(7, Gesture::Drag { dx: 1, dy: 1 }));
    assert!(!curve.activate(usize::MAX));
    assert_is_curve(&curve);
}

#[test]
fn every_operation_keeps_a_curve_a_curve() {
    let mut curve = Curve::forward();
    let mut seed: u64 = 0x2545_f491_4f6c_dd1d;
    for _ in 0..2_000 {
        seed ^= seed << 13;
        seed ^= seed >> 7;
        seed ^= seed << 17;
        let i = (seed % 32) as usize;
        let x = ((seed >> 8) % 6_000) as i64 - 1_000;
        let y = ((seed >> 24) % 140_000) as i64 - 20_000;
        match (seed >> 48) % 6 {
            0 => {
                curve.move_point(i, Pos { x, y });
            }
            1 => {
                if curve.len() < 60 {
                    curve.insert_point_at(Pos { x, y });
                }
            }
            2 => {
                curve.remove_point(i);
            }
            3 => {
                curve.toggle_link(i);
            }
            4 => {
                curve.straighten(i);
            }
            _ => {
                curve.drag_point(i, x, y);
            }
        }
        assert_is_curve(&curve);
        let probe = x.clamp(0, X_MAX);
        let value = curve.value(probe).unwrap();
        assert!((0..=Y_MAX).contains(&value));
    }
}

#[test]
fn stored_points_come_back_exactly() {
    let mut curve = Curve::forward();
    curve.insert_point_at(Pos { x: 1_700, y: 123 });
    curve.move_point(3, Pos { x: 1_000, y: 9 });
    let restored = Curve::from_points(curve.linked(), curve.points().clone());
    assert_eq!(restored.points(), curve.points());
    assert_eq!(restored.linked(), curve.linked());
}

#[test]
fn stored_points_that_make_no_curve_give_the_default() {
    let default = Curve::default();
    let broken: Vec<(bool, Vec<CurvePoint>)> = vec![
        (false, vec![]),
        (false, vec![first(0, 0)]),
        (false, vec![first(0, 0), last(4_000, 0)]),
        (false, vec![first(0, 0), bezier(1, 0), inner(2, 0), last(4_000, 0)]),
        (false, vec![first(0, 0), inner(2_000, 0), last(4_000, 0)]),
        (false, vec![last(0, 0), bezier(2_000, 0), first(4_000, 0)]),
        (false, vec![first(0, 0), bezier(2_000, 0), inner(4_000, 0)]),
        (false, vec![first(1, 0), bezier(2_000, 0), last(4_000, 0)]),
        (false, vec![first(0, 0), bezier(2_000, 0), last(3_999, 0)]),
        (false, vec![first(0, 0), bezier(2_000, -1), last(4_000, 0)]),
        (false, vec![first(0, 0), bezier(2_000, Y_MAX + 1), last(4_000, 0)]),
        (false, vec![first(0, 0), bezier(4_001, 0), last(4_000, 0)]),
        (true, vec![first(0, 0), bezier(2_000, 0), last(4_000, 1)]),
        (
            false,
            vec![first(0, 0), bezier(2_000, 0), inner(1_000, 0), bezier(3_000, 0), last(4_000, 0)],
        ),
        (
            false,
            vec![first(0, 0), bezier(1_000, 0), bezier(2_000, 0), bezier(3_000, 0), last(4_000, 0)],
        ),
        (
            false,
            vec![first(0, 0), bezier(1_000, 0), first(2_000, 0), bezier(3_000, 0), last(4_000, 0)],
        ),
    ];
    for (linked, points) in broken {
        assert!(!Curve::is_valid(linked, &points), "{points:?}");
        let curve = Curve::from_points(linked, points);
        assert_eq!(curve.points(), default.points());
        assert_eq!(curve.linked(), default.linked());
    }
}

#[test]
fn stored_points_that_make_a_curve_are_valid() {
    assert!(Curve::is_valid(false, &vec![first(0, 0), bezier(2_000, 0), last(4_000, 1)]));
    assert!(Curve::is_valid(true, &vec![first(0, 1), bezier(0, 0), last(4_000, 1)]));
    assert!(Curve::is_valid(
        false,
        &vec![first(0, 0), bezier(0, 0), inner(0, 5), bezier(4_000, 0), last(4_000, 1)]
    ));
}
