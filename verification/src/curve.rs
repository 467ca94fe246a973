//! The editable curve: an ordered sequence of points and a link flag, the
//! canonical shapes it can start from, the operations that reshape it, and
//! the query for its value at a beat position.

use vstd::prelude::*;
use crate::bezier::Segment;
use crate::geometry::{clamp, clamp_i64, midpoint, midpoint_i64, Pos, X_MAX, Y_MAX};
use crate::model::{first_after_from, lemma_first_after_from, valid_points, CurveModel};
use crate::point::CurvePoint;

verus! {

/// An editable curve over the four-beat axis.
#[derive(Debug)]
pub struct Curve {
    linked: bool,
    points: Vec<CurvePoint>,
}

/// Why a query was turned down.
#[derive(Clone, Copy, Debug, PartialEq, Eq, Structural)]
pub enum CurveError {
    /// The beat position, carried here, lies outside `[0, X_MAX]`.
    BeatOutOfRange(i64),
}

impl View for Curve {
    type V = CurveModel;

    closed spec fn view(&self) -> CurveModel {
        CurveModel { points: self.points@, linked: self.linked }
    }
}

/// The points of the curve that runs in straight lines through `through`:
/// the first of them as `First`, the last as `Last`, the others as `Inner`,
/// and between each two neighbours a control point halfway between them.
pub open spec fn linear_model(through: Seq<(i64, i64)>) -> Seq<CurvePoint> {
    Seq::new(
        (2 * through.len() - 1) as nat,
        |i: int|
            {
                let here = Pos { x: through[i / 2].0, y: through[i / 2].1 };
                if i % 2 == 1 {
                    CurvePoint::Bezier(
                        Pos {
                            x: midpoint(through[i / 2].0 as int, through[i / 2 + 1].0 as int) as i64,
                            y: midpoint(through[i / 2].1 as int, through[i / 2 + 1].1 as int) as i64,
                        },
                    )
                } else if i == 0 {
                    CurvePoint::First(here)
                } else if i == 2 * through.len() - 2 {
                    CurvePoint::Last(here)
                } else {
                    CurvePoint::Inner(here)
                }
            },
    )
}

/// Whether straight lines through `through` make a curve: at least two
/// points, all in the domain, from x = 0 to x = `X_MAX`, with x never
/// falling.
pub open spec fn valid_through(through: Seq<(i64, i64)>) -> bool {
    &&& through.len() >= 2
    &&& through[0].0 == 0
    &&& through[through.len() - 1].0 == X_MAX
    &&& forall|i: int|
        0 <= i < through.len() ==> 0 <= (#[trigger] through[i]).0 <= X_MAX && 0 <= through[i].1
            <= Y_MAX
    &&& forall|i: int, j: int|
        0 <= i <= j < through.len() ==> (#[trigger] through[i]).0 <= (#[trigger] through[j]).0
}

/// Straight lines through a valid list of points make the points of a
/// curve.
pub proof fn lemma_linear_valid(through: Seq<(i64, i64)>)
    requires
        valid_through(through),
    ensures
        valid_points(linear_model(through)),
{
    let s = linear_model(through);
    assert forall|i: int| 0 <= i < s.len() implies (#[trigger] s[i]).pos().in_domain()
        && through[i / 2].0 <= s[i].pos().x && (i % 2 == 0 ==> s[i].pos().x == through[i / 2].0)
        && (i % 2 == 1 ==> s[i].pos().x <= through[i / 2 + 1].0) by {
        assert(0 <= through[i / 2].0 <= X_MAX);
        if i % 2 == 1 {
            assert(0 <= through[i / 2 + 1].0 <= X_MAX);
            assert(through[i / 2].0 <= through[i / 2 + 1].0);
        }
    }
    assert forall|i: int, j: int| 0 <= i <= j < s.len() implies (#[trigger] s[i]).pos().x <= (
    #[trigger] s[j]).pos().x by {
        if i / 2 == j / 2 {
            assert(s[i].pos().in_domain());
            assert(s[j].pos().in_domain());
        } else {
            let up = if i % 2 == 1 {
                i / 2 + 1
            } else {
                i / 2
            };
            assert(s[i].pos().in_domain());
            assert(s[j].pos().in_domain());
            assert(through[up].0 <= through[j / 2].0);
        }
    }
}

/// The curve a host starts with, and the one that takes the place of stored
/// points that do not make a curve: the zigzag of [`Curve::alternating`].
pub open spec fn default_model() -> CurveModel {
    CurveModel {
        points: linear_model(
            seq![
                (0i64, 100_000i64),
                (1_000i64, 0i64),
                (2_000i64, 100_000i64),
                (3_000i64, 0i64),
                (4_000i64, 100_000i64),
            ],
        ),
        linked: true,
    }
}

impl Clone for Curve {
    fn clone(&self) -> (copy: Self)
        ensures
            copy@ == self@,
    {
        let n = self.points.len();
        let mut points: Vec<CurvePoint> = Vec::with_capacity(n);
        let mut i: usize = 0;
        while i < n
            invariant
                n == self.points.len(),
                i <= n,
                points.len() == i,
                forall|j: int| 0 <= j < i ==> points[j] == self.points[j],
            decreases n - i,
        {
            points.push(self.points[i]);
            i += 1;
        }
        assert(points@ == self.points@);
        Curve { linked: self.linked, points }
    }
}

impl Curve {
    /// Whether the curve's invariant holds; see [`CurveModel::wf`]. Every
    /// constructor establishes it and every operation keeps it.
    pub open spec fn wf(&self) -> bool {
        self@.wf()
    }

    /// Builds the points of the curve that runs in straight lines through
    /// `points`.
    pub fn linear_points(points: Vec<(i64, i64)>) -> (linear: Vec<CurvePoint>)
        requires
            points.len() >= 1,
            2 * points.len() <= usize::MAX,
        ensures
            linear@ == linear_model(points@),
    {
        let n = points.len();
        let mut linear: Vec<CurvePoint> = Vec::with_capacity(2 * n - 1);
        let mut i: usize = 0;
        while i < n
            invariant
                n == points.len(),
                n >= 1,
                2 * n <= usize::MAX,
                i <= n,
                linear.len() == (if i == 0 {
                    0
                } else {
                    2 * i - 1
                }),
                forall|j: int| 0 <= j < linear.len() ==> linear[j] == linear_model(points@)[j],
            decreases n - i,
        {
            let (x, y) = points[i];
            if i > 0 {
                let (prev_x, prev_y) = points[i - 1];
                assert((2 * i - 1) / 2 == i - 1);
                linear.push(
                    CurvePoint::Bezier(
                        Pos { x: midpoint_i64(prev_x, x), y: midpoint_i64(prev_y, y) },
                    ),
                );
            }
            let pos = Pos { x, y };
            assert((2 * i) / 2 == i);
            linear.push(
                if i == 0 {
                    CurvePoint::First(pos)
                } else if i == n - 1 {
                    CurvePoint::Last(pos)
                } else {
                    CurvePoint::Inner(pos)
                },
            );
            i += 1;
        }
        linear
    }

    /// A rising saw: in each of the four beats the value ramps from the
    /// bottom to the top, and drops back on the beat. Not linked.
    pub fn forward() -> (curve: Self)
        ensures
            curve.wf(),
            !curve@.linked,
            curve@.points == linear_model(
                seq![
                    (0i64, 100_000i64),
                    (1_000i64, 0i64),
                    (1_000i64, 100_000i64),
                    (2_000i64, 0i64),
                    (2_000i64, 100_000i64),
                    (3_000i64, 0i64),
                    (3_000i64, 100_000i64),
                    (4_000i64, 0i64),
                ],
            ),
    {
        let through: Vec<(i64, i64)> = vec![
            (0, 100_000),
            (1_000, 0),
            (1_000, 100_000),
            (2_000, 0),
            (2_000, 100_000),
            (3_000, 0),
            (3_000, 100_000),
            (4_000, 0),
        ];
        proof {
            lemma_linear_valid(through@);
        }
        Self { linked: false, points: Self::linear_points(through) }
    }

    /// A falling saw, the mirror image of [`forward`](Self::forward): in each
    /// of the four beats the value ramps from the top to the bottom. Not
    /// linked.
    pub fn backward() -> (curve: Self)
        ensures
            curve.wf(),
            !curve@.linked,
            curve@.points == linear_model(
                seq![
                    (0i64, 0i64),
                    (1_000i64, 100_000i64),
                    (1_000i64, 0i64),
                    (2_000i64, 100_000i64),
                    (2_000i64, 0i64),
                    (3_000i64, 100_000i64),
                    (3_000i64, 0i64),
                    (4_000i64, 100_000i64),
                ],
            ),
    {
        let through: Vec<(i64, i64)> = vec![
            (0, 0),
            (1_000, 100_000),
            (1_000, 0),
            (2_000, 100_000),
            (2_000, 0),
            (3_000, 100_000),
            (3_000, 0),
            (4_000, 100_000),
        ];
        proof {
            lemma_linear_valid(through@);
        }
        Self { linked: false, points: Self::linear_points(through) }
    }

    /// A zigzag that turns on every beat, starting and ending at the bottom
    /// value. Linked.
    pub fn alternating() -> (curve: Self)
        ensures
            curve.wf(),
            curve@ == default_model(),
    {
        let through: Vec<(i64, i64)> = vec![
            (0, 100_000),
            (1_000, 0),
            (2_000, 100_000),
            (3_000, 0),
            (4_000, 100_000),
        ];
        proof {
            lemma_linear_valid(through@);
        }
        Self { linked: true, points: Self::linear_points(through) }
    }

    /// One level arc at the top value. Linked.
    pub fn fixed() -> (curve: Self)
        ensures
            curve.wf(),
            curve@.linked,
            curve@.points == seq![
                CurvePoint::First(Pos { x: 0, y: 0 }),
                CurvePoint::Bezier(Pos { x: 2_000, y: 0 }),
                CurvePoint::Last(Pos { x: 4_000, y: 0 }),
            ],
    {
        let through: Vec<(i64, i64)> = vec![(0, 0), (4_000, 0)];
        proof {
            lemma_linear_valid(through@);
        }
        Self { linked: true, points: Self::linear_points(through) }
    }

    /// Whether `points` and `linked` make a curve.
    pub fn is_valid(linked: bool, points: &Vec<CurvePoint>) -> (valid: bool)
        ensures
            valid == (CurveModel { points: points@, linked }).wf(),
    {
        let n = points.len();
        if n < 3 || n % 2 == 0 {
            return false;
        }
        let first = points[0];
        let last = points[n - 1];
        if !first.is_start() || first.pos().x != 0 || !last.is_end() || last.pos().x != X_MAX {
            return false;
        }
        if linked && first.pos().y != last.pos().y {
            return false;
        }
        let mut i: usize = 0;
        while i < n
            invariant
                n == points.len(),
                n >= 3,
                i <= n,
                forall|a: int| 0 <= a < i ==> (#[trigger] points[a]).pos().in_domain(),
                forall|a: int|
                    0 < a < i && a < n - 1 ==> if a % 2 == 1 {
                        #[trigger] points[a] is Bezier
                    } else {
                        points[a] is Inner
                    },
                forall|a: int, b: int|
                    0 <= a <= b < i ==> (#[trigger] points[a]).pos().x <= (
                    #[trigger] points[b]).pos().x,
            decreases n - i,
        {
            let point = points[i];
            let pos = point.pos();
            if pos.x < 0 || pos.x > X_MAX || pos.y < 0 || pos.y > Y_MAX {
                assert(!points[i as int].pos().in_domain());
                return false;
            }
            if 0 < i && i < n - 1 {
                if i % 2 == 1 {
                    if !point.is_bezier() {
                        assert(!(points[i as int] is Bezier));
                        return false;
                    }
                } else if !point.is_inner() {
                    assert(!(points[i as int] is Inner));
                    return false;
                }
            }
            if i > 0 {
                if points[i - 1].pos().x > pos.x {
                    assert(points[i - 1].pos().x > points[i as int].pos().x);
                    return false;
                }
                assert forall|a: int, b: int| 0 <= a <= b < i + 1 implies (
                #[trigger] points[a]).pos().x <= (#[trigger] points[b]).pos().x by {
                    if b == i && a < i {
                        assert(points[a].pos().x <= points[i - 1].pos().x);
                    }
                }
            }
            i += 1;
        }
        true
    }

    /// Takes up stored points and a stored link flag. Where they make a
    /// curve, the curve is exactly what was stored; where they do not, it is
    /// the default curve.
    pub fn from_points(linked: bool, points: Vec<CurvePoint>) -> (curve: Self)
        ensures
            curve.wf(),
            (CurveModel { points: points@, linked }).wf() ==> curve@ == (CurveModel {
                points: points@,
                linked,
            }),
            !(CurveModel { points: points@, linked }).wf() ==> curve@ == default_model(),
    {
        if Self::is_valid(linked, &points) {
            Self { linked, points }
        } else {
            Self::alternating()
        }
    }

    /// Whether the two ends are kept at one height.
    pub fn linked(&self) -> (linked: bool)
        ensures
            linked == self@.linked,
    {
        self.linked
    }

    /// The points from left to right.
    pub fn points(&self) -> (points: &Vec<CurvePoint>)
        ensures
            points@ == self@.points,
    {
        &self.points
    }

    /// The number of points.
    pub fn len(&self) -> (len: usize)
        ensures
            len == self@.points.len(),
    {
        self.points.len()
    }
}

impl Curve {
    /// The index of the first point whose x exceeds `x`, or the number of
    /// points where there is none.
    pub fn first_after(&self, x: i64) -> (index: usize)
        ensures
            index == self@.first_after(x as int),
            index <= self@.points.len(),
    {
        let n = self.points.len();
        let mut i: usize = 0;
        while i < n && self.points[i].pos().x <= x
            invariant
                n == self.points.len(),
                i <= n,
                first_after_from(self.points@, x as int, i as int) == first_after_from(
                    self.points@,
                    x as int,
                    0,
                ),
            decreases n - i,
        {
            i += 1;
        }
        proof {
            lemma_first_after_from(self.points@, x as int, i as int);
        }
        i
    }

    /// The x that point `i` takes when it is asked to move to `desired_x`:
    /// for a point between the ends, `desired_x` clamped into the x range of
    /// its two neighbours; for an end, the x that the end has.
    pub fn clamp_to_neighbors(&self, i: usize, desired_x: i64) -> (x: i64)
        requires
            self.wf(),
        ensures
            x == self@.clamp_to_neighbors(i as int, desired_x as int),
            0 < i < self@.points.len() - 1 ==> self@.points[i - 1].pos().x <= x
                <= self@.points[i + 1].pos().x,
            0 < i < self@.points.len() - 1 ==> x == clamp(
                desired_x as int,
                self@.points[i - 1].pos().x as int,
                self@.points[i + 1].pos().x as int,
            ),
    {
        proof {
            if 0 < i < self@.points.len() - 1 {
                assert(self@.points[i - 1].pos().x <= self@.points[i + 1].pos().x);
            }
        }
        self.clamp_wide(i, desired_x as i128)
    }

    /// [`clamp_to_neighbors`](Self::clamp_to_neighbors) for an x that may
    /// lie outside the 64-bit range.
    fn clamp_wide(&self, i: usize, x: i128) -> (clamped: i64)
        requires
            self.wf(),
            i64::MIN + i64::MIN <= x <= i64::MAX + i64::MAX,
        ensures
            i < self@.points.len() ==> clamped == self@.clamp_to_neighbors(i as int, x as int),
            i >= self@.points.len() ==> clamped == clamp(
                x as int,
                i64::MIN as int,
                i64::MAX as int,
            ),
    {
        let n = self.points.len();
        if 0 < i && i < n - 1 {
            let lo = self.points[i - 1].pos().x as i128;
            let hi = self.points[i + 1].pos().x as i128;
            if x < lo {
                lo as i64
            } else if x > hi {
                hi as i64
            } else {
                x as i64
            }
        } else if i < n {
            self.points[i].pos().x
        } else if x < i64::MIN as i128 {
            i64::MIN
        } else if x > i64::MAX as i128 {
            i64::MAX
        } else {
            x as i64
        }
    }

    /// Whether moving point `i` also moves the other end: the point is an
    /// end of a linked curve.
    pub fn mirrors(&self, i: usize) -> (mirrors: bool)
        ensures
            mirrors == self@.mirrors(i as int),
    {
        i < self.points.len() && self.points[i].is_outer() && self.linked
    }

    /// Moves point `i` to the position `(x, y)`, given in wide integers.
    fn move_to(&mut self, i: usize, x: i128, y: i128) -> (refresh: bool)
        requires
            old(self).wf(),
            i64::MIN + i64::MIN <= x <= i64::MAX + i64::MAX,
        ensures
            final(self).wf(),
            final(self)@ == old(self)@.move_point(i as int, x as int, y as int),
            refresh == old(self)@.mirrors(i as int),
    {
        let n = self.points.len();
        if i >= n {
            return false;
        }
        proof {
            self@.lemma_move_point_wf(i as int, x as int, y as int);
            self@.lemma_kinds(i as int);
        }
        let target_x = self.clamp_wide(i, x);
        let target_y: i64 = if y < 0 {
            0
        } else if y > Y_MAX as i128 {
            Y_MAX
        } else {
            y as i64
        };
        let target = Pos { x: target_x, y: target_y };
        assert(target == self@.target(i as int, x as int, y as int));
        let mut point = self.points[i];
        point.set_pos(target);
        self.points[i] = point;
        if point.is_outer() && self.linked {
            let m = n - 1 - i;
            let mut other = self.points[m];
            other.set_pos(target);
            self.points[m] = other;
            true
        } else {
            false
        }
    }

    /// Moves point `i` towards `new_pos` and says whether the host should
    /// refresh its display.
    ///
    /// The point lands on `new_pos` with y clamped into the domain and, for
    /// a point between the ends, x clamped into the x range of its two
    /// neighbours; an end keeps its x. Where the point is an end of a linked
    /// curve, the other end takes the same y, and only then a refresh is
    /// asked for. Without a point `i` nothing changes.
    pub fn move_point(&mut self, i: usize, new_pos: Pos) -> (refresh: bool)
        requires
            old(self).wf(),
        ensures
            final(self).wf(),
            final(self)@ == old(self)@.move_point(i as int, new_pos.x as int, new_pos.y as int),
            refresh == old(self)@.mirrors(i as int),
    {
        self.move_to(i, new_pos.x as i128, new_pos.y as i128)
    }

    /// Drags point `i` by `(dx, dy)`: moves it, as
    /// [`move_point`](Self::move_point) does, to where it is plus the delta.
    pub fn drag_point(&mut self, i: usize, dx: i64, dy: i64) -> (refresh: bool)
        requires
            old(self).wf(),
        ensures
            final(self).wf(),
            i < old(self)@.points.len() ==> final(self)@ == old(self)@.move_point(
                i as int,
                old(self)@.points[i as int].pos().x + dx,
                old(self)@.points[i as int].pos().y + dy,
            ),
            i >= old(self)@.points.len() ==> final(self)@ == old(self)@,
            refresh == old(self)@.mirrors(i as int),
    {
        if i >= self.points.len() {
            return false;
        }
        let from = self.points[i].pos();
        self.move_to(i, from.x as i128 + dx as i128, from.y as i128 + dy as i128)
    }

    /// Switches the link at end `i` and says whether the host should
    /// refresh its display.
    ///
    /// Switching the link on brings the other end to the y of end `i`, and
    /// only then a refresh is asked for. Where point `i` is not an end,
    /// nothing changes.
    pub fn toggle_link(&mut self, i: usize) -> (refresh: bool)
        requires
            old(self).wf(),
        ensures
            final(self).wf(),
            final(self)@ == old(self)@.toggle_link(i as int),
            refresh == (old(self)@.can_toggle_link(i as int) && !old(self)@.linked),
    {
        let n = self.points.len();
        if i >= n || !self.points[i].is_outer() {
            return false;
        }
        proof {
            self@.lemma_toggle_link_wf(i as int);
        }
        if self.linked {
            self.linked = false;
            assert(self@ == old(self)@.toggle_link(i as int));
            false
        } else {
            let m = n - 1 - i;
            let mut other = self.points[m];
            other.set_pos(self.points[i].pos());
            self.points[m] = other;
            self.linked = true;
            assert(self@ == old(self)@.toggle_link(i as int));
            true
        }
    }

    /// [`straighten`](Self::straighten) on points that need not make a
    /// curve.
    fn straighten_at(&mut self, i: usize) -> (done: bool)
        ensures
            final(self)@ == old(self)@.straighten(i as int),
            done == old(self)@.can_straighten(i as int),
    {
        let n = self.points.len();
        if i == 0 || n < 2 || i >= n - 1 || !self.points[i].is_bezier() {
            return false;
        }
        let middle = self.points[i - 1].pos().midpoint(self.points[i + 1].pos());
        self.points[i] = CurvePoint::Bezier(middle);
        assert(self@ == old(self)@.straighten(i as int));
        true
    }

    /// Puts control point `i` halfway between its two neighbours and says
    /// whether it did. Where point `i` is not a control point, nothing
    /// changes.
    pub fn straighten(&mut self, i: usize) -> (done: bool)
        requires
            old(self).wf(),
        ensures
            final(self).wf(),
            final(self)@ == old(self)@.straighten(i as int),
            done == old(self)@.can_straighten(i as int),
    {
        proof {
            self@.lemma_straighten_wf(i as int);
        }
        self.straighten_at(i)
    }

    /// Removes inner point `i` together with the control point behind it,
    /// straightens the control point in front of it, and says whether it
    /// did. Where point `i` is not an inner point, nothing changes.
    pub fn remove_point(&mut self, i: usize) -> (done: bool)
        requires
            old(self).wf(),
        ensures
            final(self).wf(),
            final(self)@ == old(self)@.remove_point(i as int),
            done == old(self)@.can_remove(i as int),
            done ==> final(self)@.points.len() == old(self)@.points.len() - 2,
    {
        let n = self.points.len();
        if i >= n || !self.points[i].is_inner() {
            return false;
        }
        proof {
            self@.lemma_kinds(i as int);
            self@.lemma_remove_point_wf(i as int);
        }
        self.points.remove(i);
        self.points.remove(i);
        assert(self@ == old(self)@.with_points(old(self)@.points.remove(i as int).remove(i as int)));
        self.straighten_at(i - 1);
        true
    }

    /// Inserts an inner point at `pos`, with y clamped into the domain, and
    /// says whether it did.
    ///
    /// Nothing changes unless `pos.x` lies strictly inside the domain. The
    /// new point goes in front of the first point to the right of `pos.x`,
    /// with a new control point at its side, on the side of the nearer
    /// neighbour that the curve passes through; the control point on its
    /// other side is straightened. See [`CurveModel::insert_point_at`].
    pub fn insert_point_at(&mut self, pos: Pos) -> (done: bool)
        requires
            old(self).wf(),
            old(self)@.points.len() + 2 <= usize::MAX,
        ensures
            final(self).wf(),
            final(self)@ == old(self)@.insert_point_at(pos.x as int, pos.y as int),
            done == (0 < pos.x < X_MAX),
            done == old(self)@.can_insert(pos.x as int),
            done ==> final(self)@.points.len() == old(self)@.points.len() + 2,
    {
        proof {
            self@.lemma_insert_point_at_wf(pos.x as int, pos.y as int);
        }
        if pos.x <= 0 || pos.x >= X_MAX {
            return false;
        }
        let i = self.first_after(pos.x);
        proof {
            self@.lemma_first_after_range(pos.x as int);
        }
        let click = Pos { x: pos.x, y: clamp_i64(pos.y, 0, Y_MAX) };
        let before = self.points[i - 1];
        let after = self.points[i];
        if before.is_inner() || before.is_outer() {
            self.points.insert(i, CurvePoint::Inner(click));
            self.points.insert(i, CurvePoint::Bezier(before.pos().midpoint(click)));
            self.straighten_at(i + 2);
        } else {
            self.points.insert(i, CurvePoint::Bezier(after.pos().midpoint(click)));
            self.points.insert(i, CurvePoint::Inner(click));
            self.straighten_at(i - 1);
        }
        true
    }

    /// The number of arcs.
    pub fn segment_count(&self) -> (count: usize)
        requires
            self.wf(),
        ensures
            count == self@.segment_count(),
            count >= 1,
    {
        (self.points.len() - 1) / 2
    }

    /// Arc `j`, counted from zero.
    pub fn segment(&self, j: usize) -> (segment: Segment)
        requires
            self.wf(),
            j < self@.segment_count(),
        ensures
            segment == self@.segment(j as int),
            segment.in_domain(),
            segment.monotone(),
    {
        proof {
            self@.lemma_segment(j as int);
            assert(2 * j + 2 <= self.points.len() - 1);
        }
        Segment {
            start: self.points[2 * j].pos(),
            control: self.points[2 * j + 1].pos(),
            end: self.points[2 * j + 2].pos(),
        }
    }

    /// The value of the curve at beat position `x`.
    ///
    /// A position outside `[0, X_MAX]` is turned down. At `X_MAX`, where no
    /// point lies to the right, the value is that of the last point.
    /// Otherwise the arc above `x` is searched for the point above `x`, as
    /// [`Segment::solve`] does, and the value is `Y_MAX` less the y found.
    pub fn value(&self, x: i64) -> (value: Result<i64, CurveError>)
        requires
            self.wf(),
        ensures
            value is Ok <==> 0 <= x <= X_MAX,
            value matches Ok(v) ==> v == self@.value(x as int) && 0 <= v <= Y_MAX,
            value matches Err(e) ==> e == CurveError::BeatOutOfRange(x),
    {
        if x < 0 || x > X_MAX {
            return Err(CurveError::BeatOutOfRange(x));
        }
        let n = self.points.len();
        let i = self.first_after(x);
        proof {
            self@.lemma_first_after_range(x as int);
            if x < X_MAX {
                self@.lemma_segment_at(x as int);
            }
        }
        if i >= n {
            return Ok(Y_MAX - self.points[n - 1].pos().y);
        }
        let segment = if self.points[i].is_bezier() {
            Segment {
                start: self.points[i - 1].pos(),
                control: self.points[i].pos(),
                end: self.points[i + 1].pos(),
            }
        } else {
            Segment {
                start: self.points[i - 2].pos(),
                control: self.points[i - 1].pos(),
                end: self.points[i].pos(),
            }
        };
        let y = segment.solve(x);
        Ok(Y_MAX - y)
    }
}

impl Default for Curve {
    /// The curve a host starts with: [`Curve::alternating`].
    fn default() -> (curve: Self)
        ensures
            curve.wf(),
            curve@ == default_model(),
    {
        Self::alternating()
    }
}

} // verus!
