//! Every operation turns a curve into a curve.

use vstd::prelude::*;
use crate::geometry::{clamp, lemma_midpoint_in_domain, Pos, X_MAX, Y_MAX};
use crate::model::{lemma_first_after_from, valid_points, CurveModel};
use crate::point::CurvePoint;

verus! {

impl CurveModel {
    /// In a curve the kind of a point follows from its index: the first
    /// point is the `First`, the last the `Last`, and between them the
    /// points at odd indices are control points and the others inner points.
    pub proof fn lemma_kinds(self, i: int)
        requires
            self.wf(),
            self.has(i),
        ensures
            self.points[i] is Bezier <==> i % 2 == 1,
            self.points[i] is First <==> i == 0,
            self.points[i] is Last <==> i == self.points.len() - 1,
            self.points[i] is Inner <==> (i % 2 == 0 && 0 < i < self.points.len() - 1),
            self.points[i].pos().in_domain(),
    {
    }

    /// For a beat position of the domain, the first point to the right of it
    /// is not the first point; for one left of the right edge, there is such
    /// a point.
    pub proof fn lemma_first_after_range(self, x: int)
        requires
            self.wf(),
            0 <= x,
        ensures
            1 <= self.first_after(x) <= self.points.len(),
            x < X_MAX ==> self.first_after(x) < self.points.len(),
            x >= X_MAX ==> self.first_after(x) == self.points.len(),
            forall|j: int| 0 <= j < self.first_after(x) ==> (#[trigger] self.points[j]).pos().x <= x,
            self.first_after(x) < self.points.len() ==> self.points[self.first_after(x)].pos().x > x,
    {
        lemma_first_after_from(self.points, x, 0);
        let r = self.first_after(x);
        let last = self.points.len() - 1;
        if x >= X_MAX && r < self.points.len() {
            assert(self.points[r].pos().x <= self.points[last].pos().x);
        }
        if x < X_MAX && r == self.points.len() {
            assert(self.points[last].pos().x <= x);
        }
    }

    /// Every arc of a curve lies in the domain, and x does not fall along
    /// it.
    pub proof fn lemma_segment(self, j: int)
        requires
            self.wf(),
            0 <= j < self.segment_count(),
        ensures
            self.segment(j).in_domain(),
            self.segment(j).monotone(),
            self.points[2 * j].is_structural(),
            self.points[2 * j + 1] is Bezier,
            self.points[2 * j + 2].is_structural(),
    {
        self.lemma_kinds(2 * j);
        self.lemma_kinds(2 * j + 1);
        self.lemma_kinds(2 * j + 2);
        assert(self.points[2 * j].pos().x <= self.points[2 * j + 1].pos().x);
        assert(self.points[2 * j + 1].pos().x <= self.points[2 * j + 2].pos().x);
    }

    /// For a beat position `x` left of the right edge, the arc that is
    /// searched is one of the curve's arcs, and `x` lies between its two
    /// ends.
    pub proof fn lemma_segment_at(self, x: int)
        requires
            self.wf(),
            0 <= x < X_MAX,
        ensures
            0 <= (self.first_after(x) - 1) / 2 < self.segment_count(),
            self.segment_at(x) == self.segment((self.first_after(x) - 1) / 2),
            self.segment_at(x).in_domain(),
            self.segment_at(x).monotone(),
            self.segment_at(x).start.x <= x < self.segment_at(x).end.x,
    {
        self.lemma_first_after_range(x);
        let i = self.first_after(x);
        self.lemma_kinds(i);
        let j = (i - 1) / 2;
        self.lemma_segment(j);
        if self.points[i] is Bezier {
            assert(2 * j + 1 == i);
            assert(self.points[i - 1].pos().x <= x);
            assert(self.points[i].pos().x <= self.points[i + 1].pos().x);
        } else {
            assert(2 * j + 2 == i);
            assert(self.points[i - 2].pos().x <= x);
        }
    }

    /// Moving a point keeps a curve a curve.
    pub proof fn lemma_move_point_wf(self, i: int, x: int, y: int)
        requires
            self.wf(),
        ensures
            self.move_point(i, x, y).wf(),
            self.move_point(i, x, y).points.len() == self.points.len(),
            self.move_point(i, x, y).linked == self.linked,
    {
        if self.has(i) {
            let after = self.move_point(i, x, y);
            let target = self.target(i, x, y);
            let s = self.points;
            let t = after.points;
            self.lemma_kinds(i);
            self.lemma_kinds(self.mirror(i));
            if 0 < i < s.len() - 1 {
                assert(s[i - 1].pos().x <= s[i + 1].pos().x);
                assert(s[i - 1].pos().in_domain());
                assert(s[i + 1].pos().in_domain());
                assert(s[i - 1].pos().x <= target.x <= s[i + 1].pos().x);
                assert forall|a: int, b: int| 0 <= a <= b < t.len() implies (#[trigger] t[a]).pos().x
                    <= (#[trigger] t[b]).pos().x by {
                    if a == i && b == i {
                    } else if a == i {
                        assert(s[i + 1].pos().x <= s[b].pos().x);
                    } else if b == i {
                        assert(s[a].pos().x <= s[i - 1].pos().x);
                    } else {
                        assert(s[a].pos().x <= s[b].pos().x);
                    }
                }
                assert forall|a: int| 0 < a < t.len() - 1 implies if a % 2 == 1 {
                    #[trigger] t[a] is Bezier
                } else {
                    t[a] is Inner
                } by {
                    assert(if a % 2 == 1 {
                        s[a] is Bezier
                    } else {
                        s[a] is Inner
                    });
                }
                assert forall|a: int| 0 <= a < t.len() implies (#[trigger] t[a]).pos().in_domain() by {
                    assert(s[a].pos().in_domain());
                }
            } else {
                assert forall|a: int| 0 <= a < t.len() implies (#[trigger] t[a]).pos().x
                    == s[a].pos().x && t[a].pos().in_domain() by {
                    assert(s[a].pos().in_domain());
                }
                assert forall|a: int, b: int| 0 <= a <= b < t.len() implies (#[trigger] t[a]).pos().x
                    <= (#[trigger] t[b]).pos().x by {
                    assert(s[a].pos().x <= s[b].pos().x);
                }
                assert forall|a: int| 0 < a < t.len() - 1 implies if a % 2 == 1 {
                    #[trigger] t[a] is Bezier
                } else {
                    t[a] is Inner
                } by {
                    assert(if a % 2 == 1 {
                        s[a] is Bezier
                    } else {
                        s[a] is Inner
                    });
                }
            }
        }
    }

    /// Switching the link keeps a curve a curve.
    pub proof fn lemma_toggle_link_wf(self, i: int)
        requires
            self.wf(),
        ensures
            self.toggle_link(i).wf(),
            self.toggle_link(i).points.len() == self.points.len(),
    {
        if self.can_toggle_link(i) && !self.linked {
            let s = self.points;
            let t = self.toggle_link(i).points;
            let m = self.mirror(i);
            self.lemma_kinds(i);
            self.lemma_kinds(m);
            assert forall|a: int| 0 <= a < t.len() implies (#[trigger] t[a]).pos().x
                == s[a].pos().x && t[a].pos().in_domain() by {
                assert(s[a].pos().in_domain());
            }
            assert forall|a: int, b: int| 0 <= a <= b < t.len() implies (#[trigger] t[a]).pos().x
                <= (#[trigger] t[b]).pos().x by {
                assert(s[a].pos().x <= s[b].pos().x);
            }
            assert forall|a: int| 0 < a < t.len() - 1 implies if a % 2 == 1 {
                #[trigger] t[a] is Bezier
            } else {
                t[a] is Inner
            } by {
                assert(if a % 2 == 1 {
                    s[a] is Bezier
                } else {
                    s[a] is Inner
                });
            }
        }
    }

    /// Straightening a control point keeps a curve a curve.
    pub proof fn lemma_straighten_wf(self, i: int)
        requires
            self.wf(),
        ensures
            self.straighten(i).wf(),
            self.straighten(i).points.len() == self.points.len(),
    {
        if self.can_straighten(i) {
            self.lemma_straighten_valid(i);
        }
    }

    /// Straightening control point `i` gives the points of a curve where
    /// the points would be those of a curve if point `i` lay on its left
    /// neighbour: what control point `i` holds does not matter.
    pub proof fn lemma_straighten_valid(self, i: int)
        requires
            self.can_straighten(i),
            valid_points(self.points.update(i, CurvePoint::Bezier(self.points[i - 1].pos()))),
        ensures
            valid_points(self.straighten(i).points),
    {
        let s = self.points;
        let u = s.update(i, CurvePoint::Bezier(s[i - 1].pos()));
        let t = self.straighten(i).points;
        let middle = s[i - 1].pos().midpoint(s[i + 1].pos());
        assert(u[i - 1].pos().in_domain());
        assert(u[i + 1].pos().in_domain());
        assert(u[i - 1].pos().x <= u[i + 1].pos().x);
        lemma_midpoint_in_domain(s[i - 1].pos(), s[i + 1].pos());
        assert(t[0] == u[0]);
        assert(t[t.len() - 1] == u[u.len() - 1]);
        assert forall|a: int, b: int| 0 <= a <= b < t.len() implies (#[trigger] t[a]).pos().x
            <= (#[trigger] t[b]).pos().x by {
            if a == i && b == i {
            } else if a == i {
                assert(u[i + 1].pos().x <= u[b].pos().x);
            } else if b == i {
                assert(u[a].pos().x <= u[i - 1].pos().x);
            } else {
                assert(u[a].pos().x <= u[b].pos().x);
            }
        }
        assert forall|a: int| 0 < a < t.len() - 1 implies if a % 2 == 1 {
            #[trigger] t[a] is Bezier
        } else {
            t[a] is Inner
        } by {
            assert(if a % 2 == 1 {
                u[a] is Bezier
            } else {
                u[a] is Inner
            });
        }
        assert forall|a: int| 0 <= a < t.len() implies (#[trigger] t[a]).pos().in_domain() by {
            assert(u[a].pos().in_domain());
        }
    }

    /// Removing an inner point keeps a curve a curve, two points shorter.
    pub proof fn lemma_remove_point_wf(self, i: int)
        requires
            self.wf(),
        ensures
            self.remove_point(i).wf(),
            self.can_remove(i) ==> self.remove_point(i).points.len() == self.points.len() - 2,
            !self.can_remove(i) ==> self.remove_point(i) == self,
    {
        if self.can_remove(i) {
            let s = self.points;
            self.lemma_kinds(i);
            lemma_remove_pair(s, i);
            let g = s.remove(i).remove(i);
            let cut = self.with_points(g);
            let u = g.update(i - 1, CurvePoint::Bezier(g[i - 2].pos()));
            assert(g[i - 1] == s[i - 1]);
            self.lemma_kinds(i - 1);
            assert(cut.can_straighten(i - 1));
            assert(u[0] == s[0]);
            assert(u[u.len() - 1] == s[s.len() - 1]);
            assert forall|a: int| 0 <= a < u.len() implies (#[trigger] u[a]).pos().in_domain() by {
                if a == i - 1 {
                    assert(s[i - 2].pos().in_domain());
                } else if a < i {
                    assert(s[a].pos().in_domain());
                } else {
                    assert(s[a + 2].pos().in_domain());
                }
            }
            assert forall|a: int| 0 < a < u.len() - 1 implies if a % 2 == 1 {
                #[trigger] u[a] is Bezier
            } else {
                u[a] is Inner
            } by {
                if a < i {
                    self.lemma_kinds(a);
                } else {
                    self.lemma_kinds(a + 2);
                }
            }
            assert forall|a: int, b: int| 0 <= a <= b < u.len() implies (#[trigger] u[a]).pos().x
                <= (#[trigger] u[b]).pos().x by {
                let sa = if a == i - 1 {
                    i - 2
                } else if a < i {
                    a
                } else {
                    a + 2
                };
                let sb = if b == i - 1 {
                    i - 2
                } else if b < i {
                    b
                } else {
                    b + 2
                };
                assert(u[a].pos().x == s[sa].pos().x);
                assert(u[b].pos().x == s[sb].pos().x);
                assert(s[sa].pos().x <= s[sb].pos().x);
            }
            cut.lemma_straighten_valid(i - 1);
        }
    }

    /// Inserting a point keeps a curve a curve, two points longer where
    /// the point could be inserted.
    pub proof fn lemma_insert_point_at_wf(self, x: int, y: int)
        requires
            self.wf(),
        ensures
            self.insert_point_at(x, y).wf(),
            self.can_insert(x) <==> 0 < x < X_MAX,
            self.can_insert(x) ==> self.insert_point_at(x, y).points.len() == self.points.len() + 2,
            !self.can_insert(x) ==> self.insert_point_at(x, y) == self,
    {
        if 0 < x < X_MAX {
            self.lemma_first_after_range(x);
            let i = self.first_after(x);
            self.lemma_kinds(i - 1);
            self.lemma_kinds(i);
            if self.points[i - 1].is_structural() {
                self.lemma_insert_behind_structural(x, y);
            } else {
                self.lemma_insert_behind_control(x, y);
            }
        }
    }

    /// [`lemma_insert_point_at_wf`](Self::lemma_insert_point_at_wf) where the
    /// point in front of the new one is a point that the curve passes
    /// through.
    proof fn lemma_insert_behind_structural(self, x: int, y: int)
        requires
            self.wf(),
            0 < x < X_MAX,
            0 < self.first_after(x) < self.points.len() - 1,
            self.points[self.first_after(x) - 1].pos().x <= x < self.points[self.first_after(
                x,
            )].pos().x,
            self.first_after(x) % 2 == 1,
        ensures
            valid_points(self.insert_point_at(x, y).points),
            self.insert_point_at(x, y).points.len() == self.points.len() + 2,
            self.insert_point_at(x, y).points[0] == self.points[0],
            self.insert_point_at(x, y).points[self.points.len() as int + 1] == self.points[
                self.points.len() - 1],
            self.insert_point_at(x, y).linked == self.linked,
    {
        let s = self.points;
        let i = self.first_after(x);
        let click = Pos { x: x as i64, y: clamp(y, 0, Y_MAX as int) as i64 };
        let before = s[i - 1];
        self.lemma_kinds(i - 1);
        self.lemma_kinds(i);
        self.lemma_kinds(i + 1);
        assert(s[i].pos().x <= s[i + 1].pos().x);
        let control = CurvePoint::Bezier(before.pos().midpoint(click));
        lemma_midpoint_in_domain(before.pos(), click);
        lemma_midpoint_in_domain(click, s[i + 1].pos());
        lemma_insert_pair(s, i, control, CurvePoint::Inner(click));
        let g = s.insert(i, CurvePoint::Inner(click)).insert(i, control);
        let grown = self.with_points(g);
        assert(g[i + 2] == s[i]);
        assert(g[i + 3] == s[i + 1]);
        assert(grown.can_straighten(i + 2));
        let t = grown.straighten(i + 2).points;
        assert(t == self.insert_point_at(x, y).points);
        lemma_window_valid(s, t, i);
    }

    /// [`lemma_insert_point_at_wf`](Self::lemma_insert_point_at_wf) where the
    /// point in front of the new one is a control point.
    proof fn lemma_insert_behind_control(self, x: int, y: int)
        requires
            self.wf(),
            0 < x < X_MAX,
            1 < self.first_after(x) < self.points.len(),
            self.points[self.first_after(x) - 1].pos().x <= x < self.points[self.first_after(
                x,
            )].pos().x,
            self.first_after(x) % 2 == 0,
        ensures
            valid_points(self.insert_point_at(x, y).points),
            self.insert_point_at(x, y).points.len() == self.points.len() + 2,
            self.insert_point_at(x, y).points[0] == self.points[0],
            self.insert_point_at(x, y).points[self.points.len() as int + 1] == self.points[
                self.points.len() - 1],
            self.insert_point_at(x, y).linked == self.linked,
    {
        let s = self.points;
        let i = self.first_after(x);
        let click = Pos { x: x as i64, y: clamp(y, 0, Y_MAX as int) as i64 };
        let after = s[i];
        self.lemma_kinds(i - 2);
        self.lemma_kinds(i - 1);
        self.lemma_kinds(i);
        assert(s[i - 2].pos().x <= s[i - 1].pos().x);
        let control = CurvePoint::Bezier(after.pos().midpoint(click));
        lemma_midpoint_in_domain(click, after.pos());
        lemma_midpoint_in_domain(s[i - 2].pos(), click);
        assert(after.pos().midpoint(click) == click.midpoint(after.pos()));
        lemma_insert_pair(s, i, CurvePoint::Inner(click), control);
        let g = s.insert(i, control).insert(i, CurvePoint::Inner(click));
        let grown = self.with_points(g);
        assert(g[i - 1] == s[i - 1]);
        assert(g[i - 2] == s[i - 2]);
        assert(grown.can_straighten(i - 1));
        let t = grown.straighten(i - 1).points;
        assert(t == self.insert_point_at(x, y).points);
        lemma_window_valid(s, t, i - 1);
    }
}

/// The points of a curve stay the points of a curve when the control point
/// at index `w` gives way to a control point, an inner point and a control
/// point whose x does not fall and stays between the x of the two
/// neighbours of `w`.
proof fn lemma_window_valid(s: Seq<CurvePoint>, u: Seq<CurvePoint>, w: int)
    requires
        valid_points(s),
        0 < w < s.len() - 1,
        w % 2 == 1,
        u.len() == s.len() + 2,
        forall|a: int| 0 <= a < w ==> #[trigger] u[a] == s[a],
        forall|a: int| w + 3 <= a < u.len() ==> #[trigger] u[a] == s[a - 2],
        u[w] is Bezier,
        u[w + 1] is Inner,
        u[w + 2] is Bezier,
        u[w].pos().in_domain(),
        u[w + 1].pos().in_domain(),
        u[w + 2].pos().in_domain(),
        s[w - 1].pos().x <= u[w].pos().x,
        u[w].pos().x <= u[w + 1].pos().x,
        u[w + 1].pos().x <= u[w + 2].pos().x,
        u[w + 2].pos().x <= s[w + 1].pos().x,
    ensures
        valid_points(u),
{
    assert(u[0] == s[0]);
    assert(u[u.len() - 1] == s[s.len() - 1]);
    assert forall|a: int| 0 <= a < u.len() implies (#[trigger] u[a]).pos().in_domain() by {
        if a < w {
            assert(s[a].pos().in_domain());
        } else if a > w + 2 {
            assert(s[a - 2].pos().in_domain());
        }
    }
    assert forall|a: int| 0 < a < u.len() - 1 implies if a % 2 == 1 {
        #[trigger] u[a] is Bezier
    } else {
        u[a] is Inner
    } by {
        if a < w {
            assert(if a % 2 == 1 {
                s[a] is Bezier
            } else {
                s[a] is Inner
            });
        } else if a > w + 2 {
            assert(if (a - 2) % 2 == 1 {
                s[a - 2] is Bezier
            } else {
                s[a - 2] is Inner
            });
        }
    }
    assert forall|a: int| 0 <= a < u.len() implies (if a < w {
        (#[trigger] u[a]).pos().x <= s[w - 1].pos().x
    } else if a > w + 2 {
        s[w + 1].pos().x <= u[a].pos().x
    } else {
        s[w - 1].pos().x <= u[a].pos().x <= s[w + 1].pos().x
    }) by {
        if a < w {
            assert(s[a].pos().x <= s[w - 1].pos().x);
        } else if a > w + 2 {
            assert(s[w + 1].pos().x <= s[a - 2].pos().x);
        }
    }
    assert forall|a: int, b: int| 0 <= a <= b < u.len() implies (#[trigger] u[a]).pos().x
        <= (#[trigger] u[b]).pos().x by {
        if b < w {
            assert(s[a].pos().x <= s[b].pos().x);
        } else if a > w + 2 {
            assert(s[a - 2].pos().x <= s[b - 2].pos().x);
        }
    }
}

/// Where each item of a sequence lies after two items went in at index `i`.
pub proof fn lemma_insert_pair<A>(s: Seq<A>, i: int, first: A, second: A)
    requires
        0 <= i <= s.len(),
    ensures
        s.insert(i, second).insert(i, first).len() == s.len() + 2,
        forall|a: int| 0 <= a < i ==> #[trigger] s.insert(i, second).insert(i, first)[a] == s[a],
        s.insert(i, second).insert(i, first)[i] == first,
        s.insert(i, second).insert(i, first)[i + 1] == second,
        forall|a: int|
            i + 2 <= a < s.len() + 2 ==> #[trigger] s.insert(i, second).insert(i, first)[a] == s[a
                - 2],
{
    s.insert_ensures(i, second);
    let t = s.insert(i, second);
    t.insert_ensures(i, first);
    let g = t.insert(i, first);
    assert forall|a: int| i + 2 <= a < s.len() + 2 implies #[trigger] g[a] == s[a - 2] by {
        assert(g[(a - 1) + 1] == t[a - 1]);
        assert(t[(a - 2) + 1] == s[a - 2]);
    }
    assert(g[i + 1] == t[i]);
    assert forall|a: int| 0 <= a < i implies #[trigger] g[a] == s[a] by {
        assert(g[a] == t[a]);
    }
}

/// Where each item of a sequence lies after the two items at `i` and
/// `i + 1` went away.
pub proof fn lemma_remove_pair<A>(s: Seq<A>, i: int)
    requires
        0 <= i,
        i + 1 < s.len(),
    ensures
        s.remove(i).remove(i).len() == s.len() - 2,
        forall|a: int| 0 <= a < i ==> #[trigger] s.remove(i).remove(i)[a] == s[a],
        forall|a: int| i <= a < s.len() - 2 ==> #[trigger] s.remove(i).remove(i)[a] == s[a + 2],
{
    s.remove_ensures(i);
    let t = s.remove(i);
    t.remove_ensures(i);
}

} // verus!
