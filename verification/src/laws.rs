//! What holds of every curve, stated over the model and proved.

use vstd::prelude::*;
use crate::geometry::{clamp, X_MAX, Y_MAX};
use crate::model::CurveModel;

verus! {

impl CurveModel {
    /// At the right edge of the domain the curve reports exactly the value
    /// of its last point.
    pub proof fn law_value_at_right_edge(self)
        requires
            self.wf(),
        ensures
            self.value(X_MAX as int) == Y_MAX - self.points[self.points.len() - 1].pos().y,
    {
        self.lemma_first_after_range(X_MAX as int);
    }

    /// At the left edge of the domain the curve reports a value within the
    /// range of the three points of the arc that is searched there, and that
    /// arc starts at x = 0.
    pub proof fn law_value_at_left_edge(self)
        requires
            self.wf(),
        ensures
            Y_MAX - self.segment_at(0).y_high() <= self.value(0) <= Y_MAX - self.segment_at(
                0,
            ).y_low(),
            self.segment_at(0).start.x == 0,
            self.points[2].pos().x > 0 ==> self.segment_at(0) == self.segment(0),
    {
        self.lemma_first_after_range(0);
        self.lemma_segment_at(0);
        self.segment_at(0).lemma_solve_in_range(0);
        if self.points[2].pos().x > 0 {
            let i = self.first_after(0);
            if i > 2 {
                assert(self.points[2].pos().x <= 0);
            }
        }
    }

    /// Where the first arc is level and has some width, the curve reports
    /// at the left edge exactly the value of its first point.
    pub proof fn law_value_at_left_edge_level(self)
        requires
            self.wf(),
            self.segment(0).level(),
            self.points[2].pos().x > 0,
        ensures
            self.value(0) == Y_MAX - self.points[0].pos().y,
    {
        self.law_value_at_left_edge();
        self.segment(0).lemma_solve_level(0);
        self.lemma_first_after_range(0);
    }

    /// Left of the right edge, the value that the curve reports is the
    /// height of a point of the curve: a point of the arc above `x`, at a
    /// parameter strictly inside the arc, whose x is less than `PRECISION`
    /// away from `x`. The search never gives up before it is that close.
    pub proof fn law_value_tracks_curve(self, x: int)
        requires
            self.wf(),
            0 <= x < X_MAX,
        ensures
            ({
                let arc = self.segment_at(x);
                let (k, d) = arc.found(x);
                &&& 1 <= k < d
                &&& arc.close(x, k, d)
                &&& self.value(x) == Y_MAX - arc.sample_y(k, d)
                &&& Y_MAX - arc.y_high() <= self.value(x) <= Y_MAX - arc.y_low()
                &&& 0 <= self.value(x) <= Y_MAX
            }),
    {
        self.lemma_first_after_range(x);
        self.lemma_segment_at(x);
        self.segment_at(x).lemma_solve_converges(x);
    }

    /// The curve has no gap where two arcs meet: an arc ends in the point in
    /// which the next one starts, and it reaches its two end points at the
    /// parameters 0 and 1.
    pub proof fn law_arcs_join(self, j: int, d: int)
        requires
            self.wf(),
            0 <= j,
            j + 1 < self.segment_count(),
            d > 0,
        ensures
            self.segment(j).end == self.segment(j + 1).start,
            self.segment(j).sample_x(d, d) == self.segment(j).end.x,
            self.segment(j).sample_y(d, d) == self.segment(j).end.y,
            self.segment(j + 1).sample_x(0, d) == self.segment(j).end.x,
            self.segment(j + 1).sample_y(0, d) == self.segment(j).end.y,
    {
        self.segment(j).lemma_sample_ends(d);
        self.segment(j + 1).lemma_sample_ends(d);
    }

    /// Once the link was switched on at one end, the two ends have one
    /// height, and a move of either end brings both to the height that was
    /// asked for, clamped into the domain.
    pub proof fn law_link_propagation(self, i: int, j: int, x: int, y: int)
        requires
            self.wf(),
            !self.linked,
            self.can_toggle_link(i),
            self.can_toggle_link(j),
        ensures
            ({
                let linked = self.toggle_link(i);
                let moved = linked.move_point(j, x, y);
                &&& linked.linked
                &&& linked.points[i].pos().y == self.points[i].pos().y
                &&& linked.points[linked.mirror(i)].pos().y == self.points[i].pos().y
                &&& moved.linked
                &&& moved.points[j].pos().y == clamp(y, 0, Y_MAX as int)
                &&& moved.points[moved.mirror(j)].pos().y == clamp(y, 0, Y_MAX as int)
            }),
    {
        self.lemma_toggle_link_wf(i);
        self.lemma_kinds(i);
        self.lemma_kinds(j);
        let linked = self.toggle_link(i);
        linked.lemma_kinds(j);
        linked.lemma_kinds(linked.mirror(j));
    }

    /// A move of an end of a linked curve brings both ends to the height
    /// that was asked for, clamped into the domain, and leaves every other
    /// point and the x of both ends as they were.
    pub proof fn law_move_mirrors(self, i: int, x: int, y: int)
        requires
            self.wf(),
            self.linked,
            self.can_toggle_link(i),
        ensures
            ({
                let moved = self.move_point(i, x, y);
                let last = self.points.len() - 1;
                &&& moved.points[0].pos().y == clamp(y, 0, Y_MAX as int)
                &&& moved.points[last].pos().y == clamp(y, 0, Y_MAX as int)
                &&& moved.points[0].pos().x == 0
                &&& moved.points[last].pos().x == X_MAX
                &&& forall|a: int| 0 < a < last ==> #[trigger] moved.points[a] == self.points[a]
            }),
    {
        self.lemma_kinds(i);
        self.lemma_kinds(self.mirror(i));
    }

    /// A move of a point between the ends brings its x to the x that was
    /// asked for where that lies between the x of the two neighbours, and
    /// to the nearer of the two otherwise; its y to the y that was asked for,
    /// clamped into the domain; and leaves every other point as it was.
    pub proof fn law_move_clamps(self, i: int, x: int, y: int)
        requires
            self.wf(),
            0 < i < self.points.len() - 1,
        ensures
            ({
                let moved = self.move_point(i, x, y);
                let low = self.points[i - 1].pos().x;
                let high = self.points[i + 1].pos().x;
                &&& low <= high
                &&& low <= moved.points[i].pos().x <= high
                &&& x < low ==> moved.points[i].pos().x == low
                &&& x > high ==> moved.points[i].pos().x == high
                &&& low <= x <= high ==> moved.points[i].pos().x == x
                &&& moved.points[i].pos().y == clamp(y, 0, Y_MAX as int)
                &&& forall|a: int|
                    0 <= a < self.points.len() && a != i ==> #[trigger] moved.points[a]
                        == self.points[a]
            }),
    {
        self.lemma_kinds(i);
        self.lemma_kinds(i - 1);
        self.lemma_kinds(i + 1);
        assert(self.points[i - 1].pos().x <= self.points[i + 1].pos().x);
    }
}

} // verus!
