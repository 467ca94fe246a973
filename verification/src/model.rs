//! The curve as a mathematical value: a sequence of points and the link
//! flag, what makes such a value a curve, and what each operation makes of
//! it. The executable curve is specified against this model.

use vstd::prelude::*;
use crate::bezier::Segment;
use crate::geometry::{clamp, Pos, X_MAX, Y_MAX};
use crate::point::CurvePoint;

verus! {

/// A curve as a value of the logic.
pub struct CurveModel {
    /// The points from left to right.
    pub points: Seq<CurvePoint>,
    /// Whether the two ends are kept at one height.
    pub linked: bool,
}

/// Whether `s` has the shape of a curve:
/// an odd number of points, at least three; a `First` at x = 0 in front and
/// a `Last` at x = `X_MAX` at the back; between them `Bezier` at every odd
/// index and `Inner` at every even one; every point in the domain; and x
/// never falling from left to right.
pub open spec fn valid_points(s: Seq<CurvePoint>) -> bool {
    &&& s.len() >= 3
    &&& s.len() % 2 == 1
    &&& s[0] is First
    &&& s[0].pos().x == 0
    &&& s[s.len() - 1] is Last
    &&& s[s.len() - 1].pos().x == X_MAX
    &&& forall|i: int| 0 <= i < s.len() ==> (#[trigger] s[i]).pos().in_domain()
    &&& forall|i: int|
        0 < i < s.len() - 1 ==> if i % 2 == 1 {
            #[trigger] s[i] is Bezier
        } else {
            s[i] is Inner
        }
    &&& forall|i: int, j: int|
        0 <= i <= j < s.len() ==> (#[trigger] s[i]).pos().x <= (#[trigger] s[j]).pos().x
}

/// The index of the first point from `i` on whose x exceeds `x`, or the
/// length of `s` where there is none.
pub open spec fn first_after_from(s: Seq<CurvePoint>, x: int, i: int) -> int
    decreases s.len() - i,
{
    if i < 0 || i >= s.len() {
        s.len() as int
    } else if s[i].pos().x > x {
        i
    } else {
        first_after_from(s, x, i + 1)
    }
}

/// What [`first_after_from`] finds: no point from `i` up to the result
/// exceeds `x`, and the point at the result does.
pub proof fn lemma_first_after_from(s: Seq<CurvePoint>, x: int, i: int)
    requires
        0 <= i <= s.len(),
    ensures
        i <= first_after_from(s, x, i) <= s.len(),
        forall|j: int| i <= j < first_after_from(s, x, i) ==> (#[trigger] s[j]).pos().x <= x,
        first_after_from(s, x, i) < s.len() ==> s[first_after_from(s, x, i)].pos().x > x,
    decreases s.len() - i,
{
    if i < s.len() && s[i].pos().x <= x {
        lemma_first_after_from(s, x, i + 1);
    }
}

impl CurveModel {
    /// Whether the value is a curve: its points have the shape of one, and
    /// while it is linked its two ends have one height.
    pub open spec fn wf(self) -> bool {
        &&& valid_points(self.points)
        &&& self.linked ==> self.points[0].pos().y == self.points[self.points.len() - 1].pos().y
    }

    /// The same curve with other points.
    pub open spec fn with_points(self, points: Seq<CurvePoint>) -> CurveModel {
        CurveModel { points, linked: self.linked }
    }

    /// Whether `i` is the index of a point.
    pub open spec fn has(self, i: int) -> bool {
        0 <= i < self.points.len()
    }

    /// The index that lies as far from the back as `i` lies from the front.
    pub open spec fn mirror(self, i: int) -> int {
        self.points.len() - 1 - i
    }

    /// The x that point `i` takes when it is asked to move to `x`: between
    /// the ends, `x` clamped into the x range of the two neighbours; at an
    /// end, the x that the end has. Without a point `i` it is `x`.
    pub open spec fn clamp_to_neighbors(self, i: int, x: int) -> int {
        if 0 < i < self.points.len() - 1 {
            clamp(x, self.points[i - 1].pos().x as int, self.points[i + 1].pos().x as int)
        } else if self.has(i) {
            self.points[i].pos().x as int
        } else {
            x
        }
    }

    /// Where point `i` comes to lie when it is asked to move to `(x, y)`.
    pub open spec fn target(self, i: int, x: int, y: int) -> Pos {
        Pos { x: self.clamp_to_neighbors(i, x) as i64, y: clamp(y, 0, Y_MAX as int) as i64 }
    }

    /// Whether moving point `i` also moves the other end.
    pub open spec fn mirrors(self, i: int) -> bool {
        self.has(i) && self.points[i].is_outer() && self.linked
    }

    /// The curve after point `i` was asked to move to `(x, y)`. The point
    /// goes to its [`target`](Self::target) as far as its kind allows; where
    /// it is an end of a linked curve, the other end takes the same height.
    pub open spec fn move_point(self, i: int, x: int, y: int) -> CurveModel {
        if self.has(i) {
            let target = self.target(i, x, y);
            let moved = self.points.update(i, self.points[i].with_pos(target));
            if self.mirrors(i) {
                let m = self.mirror(i);
                self.with_points(moved.update(m, moved[m].with_pos(target)))
            } else {
                self.with_points(moved)
            }
        } else {
            self
        }
    }

    /// Whether point `i` can switch the link: it is an end.
    pub open spec fn can_toggle_link(self, i: int) -> bool {
        self.has(i) && self.points[i].is_outer()
    }

    /// The curve after the link was switched at point `i`. Switching it on
    /// brings the other end to the height of point `i`.
    pub open spec fn toggle_link(self, i: int) -> CurveModel {
        if self.can_toggle_link(i) {
            if self.linked {
                CurveModel { points: self.points, linked: false }
            } else {
                let m = self.mirror(i);
                CurveModel {
                    points: self.points.update(m, self.points[m].with_pos(self.points[i].pos())),
                    linked: true,
                }
            }
        } else {
            self
        }
    }

    /// Whether point `i` can be straightened: it is a control point with a
    /// neighbour on each side.
    pub open spec fn can_straighten(self, i: int) -> bool {
        0 < i < self.points.len() - 1 && self.points[i] is Bezier
    }

    /// The curve after control point `i` was put halfway between its two
    /// neighbours.
    pub open spec fn straighten(self, i: int) -> CurveModel {
        if self.can_straighten(i) {
            let middle = self.points[i - 1].pos().midpoint(self.points[i + 1].pos());
            self.with_points(self.points.update(i, CurvePoint::Bezier(middle)))
        } else {
            self
        }
    }

    /// Whether point `i` can be removed: it is an inner point.
    pub open spec fn can_remove(self, i: int) -> bool {
        self.has(i) && self.points[i] is Inner
    }

    /// The curve after inner point `i` was removed together with the control
    /// point behind it, and the control point in front of it was
    /// straightened.
    pub open spec fn remove_point(self, i: int) -> CurveModel {
        if self.can_remove(i) {
            self.with_points(self.points.remove(i).remove(i)).straighten(i - 1)
        } else {
            self
        }
    }

    /// The index of the first point whose x exceeds `x`, or the number of
    /// points where there is none.
    pub open spec fn first_after(self, x: int) -> int {
        first_after_from(self.points, x, 0)
    }

    /// Whether a point can be inserted at beat position `x`: `x` lies
    /// strictly inside the domain, and some point other than the first lies to
    /// the right of it.
    pub open spec fn can_insert(self, x: int) -> bool {
        0 < x < X_MAX && 0 < self.first_after(x) < self.points.len()
    }

    /// The curve after an inner point was inserted at `(x, y)`, with `y`
    /// clamped into the domain.
    ///
    /// Let `after` be the first point to the right of `x` and `before` the
    /// point in front of it. Where `before` is a point that the curve passes
    /// through, a control point halfway between `before` and the new point,
    /// and then the new point, go in front of `after`, and `after`, a
    /// control point, is straightened. Where `before` is a control point,
    /// the new point, and then a control point halfway between the new point
    /// and `after`, go in front of `after`, and `before` is straightened.
    pub open spec fn insert_point_at(self, x: int, y: int) -> CurveModel {
        if self.can_insert(x) {
            let i = self.first_after(x);
            let click = Pos { x: x as i64, y: clamp(y, 0, Y_MAX as int) as i64 };
            let before = self.points[i - 1];
            let after = self.points[i];
            if before.is_structural() {
                let control = CurvePoint::Bezier(before.pos().midpoint(click));
                self.with_points(
                    self.points.insert(i, CurvePoint::Inner(click)).insert(i, control),
                ).straighten(i + 2)
            } else {
                let control = CurvePoint::Bezier(after.pos().midpoint(click));
                self.with_points(
                    self.points.insert(i, control).insert(i, CurvePoint::Inner(click)),
                ).straighten(i - 1)
            }
        } else {
            self
        }
    }

    /// The number of arcs.
    pub open spec fn segment_count(self) -> int {
        (self.points.len() - 1) / 2
    }

    /// Arc `j`, counted from zero: the points `2j`, `2j + 1` and `2j + 2`.
    pub open spec fn segment(self, j: int) -> Segment {
        Segment {
            start: self.points[2 * j].pos(),
            control: self.points[2 * j + 1].pos(),
            end: self.points[2 * j + 2].pos(),
        }
    }

    /// The arc that is searched for beat position `x`. With `after` the first
    /// point to the right of `x`: where `after` is a control point, the arc
    /// of that control point; otherwise the arc that ends in `after`.
    pub open spec fn segment_at(self, x: int) -> Segment {
        let i = self.first_after(x);
        if self.points[i] is Bezier {
            Segment {
                start: self.points[i - 1].pos(),
                control: self.points[i].pos(),
                end: self.points[i + 1].pos(),
            }
        } else {
            Segment {
                start: self.points[i - 2].pos(),
                control: self.points[i - 1].pos(),
                end: self.points[i].pos(),
            }
        }
    }

    /// The stored y that the curve has at beat position `x`: the height of
    /// the last point where no point lies to the right of `x`, and otherwise
    /// what the search on the arc above `x` reports.
    pub open spec fn y_at(self, x: int) -> int {
        if self.first_after(x) >= self.points.len() {
            self.points[self.points.len() - 1].pos().y as int
        } else {
            self.segment_at(x).spec_solve(x)
        }
    }

    /// The value that the curve reports at beat position `x`.
    pub open spec fn value(self, x: int) -> int {
        Y_MAX - self.y_at(x)
    }
}

} // verus!
