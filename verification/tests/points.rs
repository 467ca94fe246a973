use beat_curve::geometry::{clamp_i64, midpoint_i64, Pos, Rect, UNITS, X_MAX, Y_MAX};
use beat_curve::point::{CurvePoint, Outline, CONTROL_POINT_RADIUS};

#[test]
fn domain_is_four_beats_by_one_hundred_steps() {
    assert_eq!(X_MAX, 4 * UNITS);
    assert_eq!(Y_MAX, 100 * UNITS);
    assert_eq!(CONTROL_POINT_RADIUS, 8);
}

#[test]
fn midpoint_rounds_down() {
    assert_eq!(midpoint_i64(0, 4_000), 2_000);
    assert_eq!(midpoint_i64(1, 2), 1);
    assert_eq!(midpoint_i64(-1, 0), -1);
    assert_eq!(midpoint_i64(-3, -2), -3);
    assert_eq!(midpoint_i64(i64::MAX, i64::MAX), i64::MAX);
    assert_eq!(midpoint_i64(i64::MIN, i64::MIN), i64::MIN);
    assert_eq!(midpoint_i64(i64::MIN, i64::MAX), -1);
}

#[test]
fn clamp_picks_the_nearer_bound() {
    assert_eq!(clamp_i64(5, 10, 20), 10);
    assert_eq!(clamp_i64(25, 10, 20), 20);
    assert_eq!(clamp_i64(15, 10, 20), 15);
    assert_eq!(clamp_i64(10, 10, 20), 10);
    assert_eq!(clamp_i64(20, 10, 20), 20);
}

#[test]
fn pos_midpoint_and_clamp_to_domain() {
    let a = Pos { x: 0, y: 100_000 };
    let b = Pos { x: 1_000, y: 1 };
    assert_eq!(a.midpoint(b), Pos { x: 500, y: 50_000 });
    assert_eq!(Pos { x: -5, y: 100_001 }.clamp_to_domain(), Pos { x: 0, y: 100_000 });
    assert_eq!(Pos { x: 4_001, y: -1 }.clamp_to_domain(), Pos { x: 4_000, y: 0 });
    assert_eq!(Pos { x: 17, y: 23 }.clamp_to_domain(), Pos { x: 17, y: 23 });
}

#[test]
fn kinds_classify() {
    let pos = Pos { x: 1, y: 2 };
    let first = CurvePoint::First(pos);
    let inner = CurvePoint::Inner(pos);
    let bezier = CurvePoint::Bezier(pos);
    let last = CurvePoint::Last(pos);
    assert!(first.is_start() && first.is_outer() && !first.is_inner() && !first.is_bezier());
    assert!(!first.is_end());
    assert!(last.is_end() && last.is_outer() && !last.is_inner() && !last.is_bezier());
    assert!(!last.is_start());
    assert!(inner.is_inner() && !inner.is_outer() && !inner.is_bezier());
    assert!(!inner.is_start() && !inner.is_end());
    assert!(bezier.is_bezier() && !bezier.is_outer() && !bezier.is_inner());
    for point in [first, inner, bezier, last] {
        assert_eq!(point.pos(), pos);
    }
}

#[test]
fn set_pos_pins_x_of_the_ends() {
    let new_pos = Pos { x: 77, y: 88 };
    let mut first = CurvePoint::First(Pos { x: 0, y: 5 });
    first.set_pos(new_pos);
    assert_eq!(first, CurvePoint::First(Pos { x: 0, y: 88 }));
    let mut last = CurvePoint::Last(Pos { x: 4_000, y: 5 });
    last.set_pos(new_pos);
    assert_eq!(last, CurvePoint::Last(Pos { x: 4_000, y: 88 }));
}

#[test]
fn set_pos_moves_the_others_freely() {
    let new_pos = Pos { x: 77, y: 88 };
    let mut inner = CurvePoint::Inner(Pos { x: 1, y: 5 });
    inner.set_pos(new_pos);
    assert_eq!(inner, CurvePoint::Inner(new_pos));
    let mut bezier = CurvePoint::Bezier(Pos { x: 1, y: 5 });
    bezier.set_pos(new_pos);
    assert_eq!(bezier, CurvePoint::Bezier(new_pos));
}

#[test]
fn point_rect_is_a_square_of_twice_the_radius() {
    let point = CurvePoint::Inner(Pos { x: 1_000, y: 0 });
    let rect = point.point_rect(Pos { x: 100, y: 50 });
    assert_eq!(rect, Rect { min: Pos { x: 92, y: 42 }, max: Pos { x: 108, y: 58 } });
    assert_eq!(rect.max.x - rect.min.x, 2 * CONTROL_POINT_RADIUS);
    assert_eq!(rect.max.y - rect.min.y, 2 * CONTROL_POINT_RADIUS);
}

#[test]
fn shapes_by_kind() {
    let at = Pos { x: 100, y: 50 };
    let pos = Pos { x: 0, y: 0 };
    assert_eq!(
        CurvePoint::First(pos).shape(at),
        Outline::Triangle {
            a: Pos { x: 100, y: 42 },
            b: Pos { x: 100, y: 58 },
            c: Pos { x: 108, y: 50 },
        }
    );
    assert_eq!(
        CurvePoint::Last(pos).shape(at),
        Outline::Triangle {
            a: Pos { x: 100, y: 42 },
            b: Pos { x: 100, y: 58 },
            c: Pos { x: 92, y: 50 },
        }
    );
    assert_eq!(
        CurvePoint::Inner(pos).shape(at),
        Outline::Rectangle { rect: Rect { min: Pos { x: 92, y: 42 }, max: Pos { x: 108, y: 58 } } }
    );
    assert_eq!(CurvePoint::Bezier(pos).shape(at), Outline::Circle { center: at, radius: 8 });
}
