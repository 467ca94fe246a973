//! How far the heights of two points of a curve can lie apart: on a curve
//! none of whose arcs is steeper than a given slope, no further than that
//! slope times their distance in x.

use vstd::prelude::*;
use crate::bezier::{blend, lemma_blend_ends, lemma_blend_step, round_div, Segment, PRECISION};
use crate::geometry::{X_MAX, Y_MAX};
use crate::model::CurveModel;

verus! {

/// A blend of differences is the difference of the blends, and a blend of
/// multiples the multiple of the blend.
pub proof fn lemma_blend_linear(
    m: int,
    a1: int,
    b1: int,
    c1: int,
    a2: int,
    b2: int,
    c2: int,
    k: int,
    d: int,
)
    ensures
        blend(m * a1 - a2, m * b1 - b2, m * c1 - c2, k, d) == m * blend(a1, b1, c1, k, d) - blend(
            a2,
            b2,
            c2,
            k,
            d,
        ),
        blend(m * a1 + a2, m * b1 + b2, m * c1 + c2, k, d) == m * blend(a1, b1, c1, k, d) + blend(
            a2,
            b2,
            c2,
            k,
            d,
        ),
{
    let w0 = (d - k) * (d - k);
    let w1 = 2 * ((d - k) * k);
    let w2 = k * k;
    assert(w0 * (m * a1 - a2) == m * (w0 * a1) - w0 * a2) by (nonlinear_arith);
    assert(w1 * (m * b1 - b2) == m * (w1 * b1) - w1 * b2) by (nonlinear_arith);
    assert(w2 * (m * c1 - c2) == m * (w2 * c1) - w2 * c2) by (nonlinear_arith);
    assert(w0 * (m * a1 + a2) == m * (w0 * a1) + w0 * a2) by (nonlinear_arith);
    assert(w1 * (m * b1 + b2) == m * (w1 * b1) + w1 * b2) by (nonlinear_arith);
    assert(w2 * (m * c1 + c2) == m * (w2 * c1) + w2 * c2) by (nonlinear_arith);
    let s = w0 * a1 + w1 * b1 + w2 * c1;
    assert(m * s == m * (w0 * a1) + m * (w1 * b1) + m * (w2 * c1)) by (nonlinear_arith)
        requires
            s == w0 * a1 + w1 * b1 + w2 * c1,
    ;
}

/// Where `a <= b <= c`, the blend does not fall as the parameter grows.
pub proof fn lemma_blend_monotone(a: int, b: int, c: int, k: int, l: int, d: int)
    requires
        0 <= k <= l <= d,
        a <= b <= c,
    ensures
        blend(a, b, c, k, d) <= blend(a, b, c, l, d),
    decreases l - k,
{
    if k < l {
        lemma_blend_monotone(a, b, c, k, l - 1, d);
        lemma_blend_step(a, b, c, l - 1, d);
    }
}

/// Writing the parameter `k / d` as `mk / md` multiplies the numerator by
/// `m * m`.
pub proof fn lemma_blend_scales(a: int, b: int, c: int, k: int, d: int, m: int)
    ensures
        blend(a, b, c, m * k, m * d) == (m * m) * blend(a, b, c, k, d),
{
    let h = d - k;
    let mm = m * m;
    assert(m * d - m * k == m * h) by (nonlinear_arith)
        requires
            h == d - k,
    ;
    assert((m * h) * (m * h) == mm * (h * h)) by (nonlinear_arith)
        requires
            mm == m * m,
    ;
    assert((m * h) * (m * k) == mm * (h * k)) by (nonlinear_arith)
        requires
            mm == m * m,
    ;
    assert((m * k) * (m * k) == mm * (k * k)) by (nonlinear_arith)
        requires
            mm == m * m,
    ;
    let w0 = h * h;
    let hk = h * k;
    let w2 = k * k;
    assert((mm * w0) * a == mm * (w0 * a)) by (nonlinear_arith);
    assert(2 * (mm * hk) * b == mm * (2 * hk * b)) by (nonlinear_arith);
    assert((mm * w2) * c == mm * (w2 * c)) by (nonlinear_arith);
    assert(mm * (w0 * a + 2 * hk * b + w2 * c) == mm * (w0 * a) + mm * (2 * hk * b) + mm * (w2
        * c)) by (nonlinear_arith);
}

/// The size of a number.
pub open spec fn abs(v: int) -> int {
    if v < 0 {
        -v
    } else {
        v
    }
}

impl Segment {
    /// Whether the arc is no steeper than `slope`: from the start to the
    /// control point, and from the control point to the end, y changes by no
    /// more than `slope` times the growth of x.
    pub open spec fn gentle(self, slope: int) -> bool {
        &&& slope >= 0
        &&& abs(self.control.y - self.start.y) <= slope * (self.control.x - self.start.x)
        &&& abs(self.end.y - self.control.y) <= slope * (self.end.x - self.control.x)
    }

    /// Along a gentle arc, between two parameters with one denominator, y
    /// changes by no more than the slope times the growth of x.
    pub proof fn lemma_gentle_step(self, slope: int, k: int, l: int, d: int)
        requires
            self.gentle(slope),
            0 <= k <= l <= d,
        ensures
            abs(self.y_num(l, d) - self.y_num(k, d)) <= slope * (self.x_num(l, d) - self.x_num(
                k,
                d,
            )),
    {
        let sx = self.start.x as int;
        let cx = self.control.x as int;
        let ex = self.end.x as int;
        let sy = self.start.y as int;
        let cy = self.control.y as int;
        let ey = self.end.y as int;
        assert(slope * (cx - sx) == slope * cx - slope * sx) by (nonlinear_arith);
        assert(slope * (ex - cx) == slope * ex - slope * cx) by (nonlinear_arith);
        lemma_blend_linear(slope, sx, cx, ex, sy, cy, ey, k, d);
        lemma_blend_linear(slope, sx, cx, ex, sy, cy, ey, l, d);
        lemma_blend_monotone(slope * sx - sy, slope * cx - cy, slope * ex - ey, k, l, d);
        lemma_blend_monotone(slope * sx + sy, slope * cx + cy, slope * ex + ey, k, l, d);
        let xk = self.x_num(k, d);
        let xl = self.x_num(l, d);
        assert(slope * (xl - xk) == slope * xl - slope * xk) by (nonlinear_arith);
    }

    /// Between any two parameters of a gentle arc, y changes by no more than
    /// the slope times the change of x. The two samples are compared over
    /// the product of their denominators.
    pub proof fn lemma_gentle(self, slope: int, k1: int, d1: int, k2: int, d2: int)
        requires
            self.gentle(slope),
            0 <= k1 <= d1,
            0 <= k2 <= d2,
            d1 > 0,
            d2 > 0,
        ensures
            abs(self.y_num(k2, d2) * (d1 * d1) - self.y_num(k1, d1) * (d2 * d2)) <= slope * abs(
                self.x_num(k2, d2) * (d1 * d1) - self.x_num(k1, d1) * (d2 * d2),
            ),
    {
        let sx = self.start.x as int;
        let cx = self.control.x as int;
        let ex = self.end.x as int;
        let sy = self.start.y as int;
        let cy = self.control.y as int;
        let ey = self.end.y as int;
        let d = d2 * d1;
        let l1 = d2 * k1;
        let l2 = d1 * k2;
        assert(d1 * d2 == d2 * d1) by (nonlinear_arith);
        lemma_blend_scales(sx, cx, ex, k1, d1, d2);
        lemma_blend_scales(sy, cy, ey, k1, d1, d2);
        lemma_blend_scales(sx, cx, ex, k2, d2, d1);
        lemma_blend_scales(sy, cy, ey, k2, d2, d1);
        let x1 = self.x_num(k1, d1);
        let x2 = self.x_num(k2, d2);
        let y1 = self.y_num(k1, d1);
        let y2 = self.y_num(k2, d2);
        let dd1 = d1 * d1;
        let dd2 = d2 * d2;
        assert(self.x_num(l1, d) == dd2 * x1);
        assert(self.y_num(l1, d) == dd2 * y1);
        assert(self.x_num(l2, d) == dd1 * x2);
        assert(self.y_num(l2, d) == dd1 * y2);
        assert(dd2 * x1 == x1 * dd2 && dd2 * y1 == y1 * dd2 && dd1 * x2 == x2 * dd1 && dd1 * y2
            == y2 * dd1) by (nonlinear_arith);
        assert(0 <= l1 <= d) by (nonlinear_arith)
            requires
                0 <= k1 <= d1,
                d2 > 0,
                l1 == d2 * k1,
                d == d2 * d1,
        ;
        assert(0 <= l2 <= d) by (nonlinear_arith)
            requires
                0 <= k2 <= d2,
                d1 > 0,
                l2 == d1 * k2,
                d == d2 * d1,
        ;
        let dx = x2 * dd1 - x1 * dd2;
        if l1 <= l2 {
            self.lemma_gentle_step(slope, l1, l2, d);
            assert(slope * dx <= slope * abs(dx)) by (nonlinear_arith)
                requires
                    slope >= 0,
                    dx <= abs(dx),
            ;
        } else {
            self.lemma_gentle_step(slope, l2, l1, d);
            assert(slope * (-dx) <= slope * abs(dx)) by (nonlinear_arith)
                requires
                    slope >= 0,
                    -dx <= abs(dx),
            ;
        }
    }

    /// From a sample of a gentle arc to each of the arc's two ends, y
    /// changes by no more than the slope times the growth of x.
    pub proof fn lemma_gentle_to_ends(self, slope: int, k: int, d: int)
        requires
            self.gentle(slope),
            0 <= k <= d,
            d > 0,
        ensures
            abs(self.y_num(k, d) - self.start.y * (d * d)) <= slope * (self.x_num(k, d)
                - self.start.x * (d * d)),
            abs(self.end.y * (d * d) - self.y_num(k, d)) <= slope * (self.end.x * (d * d)
                - self.x_num(k, d)),
            abs(self.end.y - self.start.y) <= slope * (self.end.x - self.start.x),
    {
        let sx = self.start.x as int;
        let cx = self.control.x as int;
        let ex = self.end.x as int;
        let sy = self.start.y as int;
        let cy = self.control.y as int;
        let ey = self.end.y as int;
        lemma_blend_ends(sx, cx, ex, d);
        lemma_blend_ends(sy, cy, ey, d);
        let dd = d * d;
        assert(d * d * sx == sx * dd && d * d * sy == sy * dd && d * d * ex == ex * dd && d * d
            * ey == ey * dd) by (nonlinear_arith)
            requires
                dd == d * d,
        ;
        self.lemma_gentle_step(slope, 0, k, d);
        self.lemma_gentle_step(slope, k, d, d);
        assert(slope * (ex - sx) == slope * (cx - sx) + slope * (ex - cx)) by (nonlinear_arith);
    }
}

/// A bound on a number, scaled by a factor that is not negative.
proof fn lemma_scale_bound(a: int, slope: int, b: int, m: int)
    by (nonlinear_arith)
    requires
        abs(a) <= slope * b,
        m >= 0,
    ensures
        abs(a * m) <= slope * (b * m),
        abs(a * m) <= (slope * b) * m,
{
}

/// Two quotients that lie no further apart than a whole number `b` round to
/// integers that lie no further apart than `b`.
pub proof fn lemma_round_div_close(n1: int, dd1: int, n2: int, dd2: int, b: int)
    requires
        dd1 > 0,
        dd2 > 0,
        b >= 0,
        abs(n2 * dd1 - n1 * dd2) <= b * (dd1 * dd2),
    ensures
        abs(round_div(n2, dd2) - round_div(n1, dd1)) <= b,
{
    let r1 = round_div(n1, dd1);
    let r2 = round_div(n2, dd2);
    vstd::arithmetic::div_mod::lemma_fundamental_div_mod(2 * n1 + dd1, 2 * dd1);
    vstd::arithmetic::div_mod::lemma_mod_bound(2 * n1 + dd1, 2 * dd1);
    vstd::arithmetic::div_mod::lemma_fundamental_div_mod(2 * n2 + dd2, 2 * dd2);
    vstd::arithmetic::div_mod::lemma_mod_bound(2 * n2 + dd2, 2 * dd2);
    let m1 = (2 * n1 + dd1) % (2 * dd1);
    let m2 = (2 * n2 + dd2) % (2 * dd2);
    assert(2 * n1 + dd1 == (2 * dd1) * r1 + m1);
    assert(2 * n2 + dd2 == (2 * dd2) * r2 + m2);
    let big = dd1 * dd2;
    assert(big > 0) by (nonlinear_arith)
        requires
            big == dd1 * dd2,
            dd1 > 0,
            dd2 > 0,
    ;
    // Twice the difference of the quotients, over the common denominator.
    let gap = 2 * (n2 * dd1 - n1 * dd2);
    assert(gap == 2 * big * (r2 - r1) + m2 * dd1 - m1 * dd2) by (nonlinear_arith)
        requires
            gap == 2 * (n2 * dd1 - n1 * dd2),
            big == dd1 * dd2,
            2 * n1 + dd1 == (2 * dd1) * r1 + m1,
            2 * n2 + dd2 == (2 * dd2) * r2 + m2,
    ;
    assert(0 <= m2 * dd1 < 2 * big) by (nonlinear_arith)
        requires
            0 <= m2 < 2 * dd2,
            dd1 > 0,
            big == dd1 * dd2,
    ;
    assert(0 <= m1 * dd2 < 2 * big) by (nonlinear_arith)
        requires
            0 <= m1 < 2 * dd1,
            dd2 > 0,
            big == dd1 * dd2,
    ;
    if r2 - r1 > b {
        assert(2 * big * (r2 - r1) >= 2 * big * (b + 1)) by (nonlinear_arith)
            requires
                r2 - r1 >= b + 1,
                big > 0,
        ;
        assert(2 * big * (b + 1) == 2 * (b * big) + 2 * big) by (nonlinear_arith);
    }
    if r1 - r2 > b {
        assert(2 * big * (r2 - r1) <= -(2 * big * (b + 1))) by (nonlinear_arith)
            requires
                r1 - r2 >= b + 1,
                big > 0,
        ;
        assert(2 * big * (b + 1) == 2 * (b * big) + 2 * big) by (nonlinear_arith);
    }
}

impl CurveModel {
    /// Whether no arc of the curve is steeper than `slope`.
    pub open spec fn gentle(self, slope: int) -> bool {
        forall|j: int| 0 <= j < self.segment_count() ==> (#[trigger] self.segment(j)).gentle(slope)
    }

    /// Where the curve is probed for beat position `x`: the index of an arc
    /// and a parameter `k / d` on it. Left of the right edge this is where
    /// the search ends; at the right edge it is the end of the last arc.
    pub open spec fn probe(self, x: int) -> (int, int, int) {
        if self.first_after(x) >= self.points.len() {
            (self.segment_count() - 1, 1, 1)
        } else {
            (
                (self.first_after(x) - 1) / 2,
                self.segment_at(x).found(x).0,
                self.segment_at(x).found(x).1,
            )
        }
    }

    /// Over the whole domain, the height that the curve has at `x` is that
    /// of a point of the curve less than `PRECISION` away from `x` in x.
    pub proof fn lemma_probe(self, x: int)
        requires
            self.wf(),
            0 <= x <= X_MAX,
        ensures
            ({
                let (j, k, d) = self.probe(x);
                &&& 0 <= j < self.segment_count()
                &&& 0 <= k <= d
                &&& d > 0
                &&& self.segment(j).close(x, k, d)
                &&& self.y_at(x) == self.segment(j).sample_y(k, d)
            }),
    {
        self.lemma_first_after_range(x);
        if x < X_MAX {
            self.lemma_segment_at(x);
            self.segment_at(x).lemma_solve_converges(x);
        } else {
            let j = self.segment_count() - 1;
            self.segment(j).lemma_sample_ends(1);
            lemma_blend_ends(
                self.segment(j).start.x as int,
                self.segment(j).control.x as int,
                self.segment(j).end.x as int,
                1,
            );
        }
    }

    /// The further right the beat position, the further right the arc that
    /// is probed.
    pub proof fn lemma_probe_order(self, x1: int, x2: int)
        requires
            self.wf(),
            0 <= x1 <= x2 <= X_MAX,
        ensures
            self.probe(x1).0 <= self.probe(x2).0,
    {
        self.lemma_first_after_range(x1);
        self.lemma_first_after_range(x2);
        let r1 = self.first_after(x1);
        let r2 = self.first_after(x2);
        if r2 < r1 {
            assert(self.points[r2].pos().x <= x1);
        }
    }

    /// On a gentle curve, from the start of one arc to the start of a later
    /// one, or to the end of the last, y changes by no more than the slope
    /// times the growth of x.
    pub proof fn lemma_gentle_junctions(self, slope: int, i: int, j: int)
        requires
            self.wf(),
            self.gentle(slope),
            0 <= i <= j <= self.segment_count(),
        ensures
            abs(self.points[2 * j].pos().y - self.points[2 * i].pos().y) <= slope * (
            self.points[2 * j].pos().x - self.points[2 * i].pos().x),
        decreases j - i,
    {
        if i < j {
            self.lemma_gentle_junctions(slope, i, j - 1);
            let arc = self.segment(j - 1);
            assert(arc.gentle(slope));
            arc.lemma_gentle_to_ends(slope, 0, 1);
            let x0 = self.points[2 * i].pos().x as int;
            let x1 = arc.start.x as int;
            let x2 = arc.end.x as int;
            assert(slope * (x2 - x0) == slope * (x1 - x0) + slope * (x2 - x1)) by (nonlinear_arith);
        } else {
            assert(slope * 0 == 0) by (nonlinear_arith);
        }
    }

    /// On a gentle curve, between a sample of one arc and a sample of a
    /// later arc, y changes by no more than the slope times the growth of
    /// x. The two samples are compared over the product of their
    /// denominators.
    pub proof fn lemma_gentle_across(
        self,
        slope: int,
        j1: int,
        k1: int,
        d1: int,
        j2: int,
        k2: int,
        d2: int,
    )
        requires
            self.wf(),
            self.gentle(slope),
            0 <= j1 < j2 < self.segment_count(),
            0 <= k1 <= d1,
            0 <= k2 <= d2,
            d1 > 0,
            d2 > 0,
        ensures
            abs(
                self.segment(j2).y_num(k2, d2) * (d1 * d1) - self.segment(j1).y_num(k1, d1) * (d2
                    * d2),
            ) <= slope * (self.segment(j2).x_num(k2, d2) * (d1 * d1) - self.segment(j1).x_num(
                k1,
                d1,
            ) * (d2 * d2)),
    {
        let arc1 = self.segment(j1);
        let arc2 = self.segment(j2);
        assert(arc1.gentle(slope));
        assert(arc2.gentle(slope));
        arc1.lemma_gentle_to_ends(slope, k1, d1);
        arc2.lemma_gentle_to_ends(slope, k2, d2);
        self.lemma_gentle_junctions(slope, j1 + 1, j2);
        let dd1 = d1 * d1;
        let dd2 = d2 * d2;
        assert(dd1 > 0 && dd2 > 0) by (nonlinear_arith)
            requires
                dd1 == d1 * d1,
                dd2 == d2 * d2,
                d1 > 0,
                d2 > 0,
        ;
        let big = dd1 * dd2;
        assert(big > 0) by (nonlinear_arith)
            requires
                big == dd1 * dd2,
                dd1 > 0,
                dd2 > 0,
        ;
        let x1 = arc1.x_num(k1, d1);
        let y1 = arc1.y_num(k1, d1);
        let x2 = arc2.x_num(k2, d2);
        let y2 = arc2.y_num(k2, d2);
        let ex = arc1.end.x as int;
        let ey = arc1.end.y as int;
        let sx = arc2.start.x as int;
        let sy = arc2.start.y as int;
        // From the first sample to the end of its arc, from there to the
        // start of the second arc, and from there to the second sample.
        let ay = ey * dd1 - y1;
        let ax = ex * dd1 - x1;
        let jy = sy - ey;
        let jx = sx - ex;
        let by = y2 - sy * dd2;
        let bx = x2 - sx * dd2;
        lemma_scale_bound(ay, slope, ax, dd2);
        lemma_scale_bound(jy, slope, jx, big);
        lemma_scale_bound(by, slope, bx, dd1);
        assert(y2 * dd1 - y1 * dd2 == by * dd1 + jy * big + ay * dd2) by (nonlinear_arith)
            requires
                ay == ey * dd1 - y1,
                jy == sy - ey,
                by == y2 - sy * dd2,
                big == dd1 * dd2,
        ;
        assert(x2 * dd1 - x1 * dd2 == bx * dd1 + jx * big + ax * dd2) by (nonlinear_arith)
            requires
                ax == ex * dd1 - x1,
                jx == sx - ex,
                bx == x2 - sx * dd2,
                big == dd1 * dd2,
        ;
        assert(slope * (bx * dd1 + jx * big + ax * dd2) == slope * (bx * dd1) + slope * (jx * big)
            + slope * (ax * dd2)) by (nonlinear_arith);
    }

    /// On a curve none of whose arcs is steeper than `slope`, the values at
    /// two beat positions lie no further apart than `slope` times the
    /// distance of the two positions, widened by `PRECISION` on either side:
    /// the curve has no jumps, within an arc or where two arcs meet.
    pub proof fn law_value_continuous(self, slope: int, x1: int, x2: int)
        requires
            self.wf(),
            self.gentle(slope),
            0 <= x1 <= x2 <= X_MAX,
        ensures
            abs(self.value(x2) - self.value(x1)) <= slope * (x2 - x1 + 2 * PRECISION),
    {
        self.lemma_probe(x1);
        self.lemma_probe(x2);
        self.lemma_probe_order(x1, x2);
        let (j1, k1, d1) = self.probe(x1);
        let (j2, k2, d2) = self.probe(x2);
        let arc1 = self.segment(j1);
        let arc2 = self.segment(j2);
        assert(arc1.gentle(slope));
        let n1 = arc1.x_num(k1, d1);
        let n2 = arc2.x_num(k2, d2);
        let y1 = arc1.y_num(k1, d1);
        let y2 = arc2.y_num(k2, d2);
        let dd1 = d1 * d1;
        let dd2 = d2 * d2;
        assert(dd1 > 0 && dd2 > 0) by (nonlinear_arith)
            requires
                dd1 == d1 * d1,
                dd2 == d2 * d2,
                d1 > 0,
                d2 > 0,
        ;
        let big = dd1 * dd2;
        let dx = n2 * dd1 - n1 * dd2;
        let dy = y2 * dd1 - y1 * dd2;
        assert(abs(dy) <= slope * abs(dx)) by {
            if j1 == j2 {
                arc1.lemma_gentle(slope, k1, d1, k2, d2);
            } else {
                self.lemma_gentle_across(slope, j1, k1, d1, j2, k2, d2);
                assert(slope * dx <= slope * abs(dx)) by (nonlinear_arith)
                    requires
                        slope >= 0,
                        dx <= abs(dx),
                ;
            }
        }
        // Each sample is close to its beat position.
        let e1 = n1 - x1 * dd1;
        let e2 = n2 - x2 * dd2;
        let width = x2 - x1 + 2 * PRECISION;
        assert(-PRECISION * dd1 < e1 < PRECISION * dd1);
        assert(-PRECISION * dd2 < e2 < PRECISION * dd2);
        assert(abs(dx) <= width * big) by (nonlinear_arith)
            requires
                dx == n2 * dd1 - n1 * dd2,
                e1 == n1 - x1 * dd1,
                e2 == n2 - x2 * dd2,
                -PRECISION * dd1 < e1 < PRECISION * dd1,
                -PRECISION * dd2 < e2 < PRECISION * dd2,
                width == x2 - x1 + 2 * PRECISION,
                big == dd1 * dd2,
                dd1 > 0,
                dd2 > 0,
                x1 <= x2,
        ;
        assert(slope * abs(dx) <= (slope * width) * big) by (nonlinear_arith)
            requires
                slope >= 0,
                0 <= abs(dx) <= width * big,
        ;
        assert(slope * width >= 0) by (nonlinear_arith)
            requires
                slope >= 0,
                width >= 0,
        ;
        lemma_round_div_close(y1, dd1, y2, dd2, slope * width);
    }

    /// On a curve none of whose arcs is steeper than `slope`, the value at
    /// the left edge lies no further from the value of the first point than
    /// `slope` times `PRECISION`.
    pub proof fn law_value_near_left_edge(self, slope: int)
        requires
            self.wf(),
            self.gentle(slope),
        ensures
            abs(self.value(0) - (Y_MAX - self.points[0].pos().y)) <= slope * PRECISION,
    {
        self.lemma_probe(0);
        let (j, k, d) = self.probe(0);
        let arc = self.segment(j);
        assert(arc.gentle(slope));
        arc.lemma_gentle_to_ends(slope, k, d);
        self.lemma_gentle_junctions(slope, 0, j);
        let dd = d * d;
        assert(dd > 0) by (nonlinear_arith)
            requires
                dd == d * d,
                d > 0,
        ;
        let xn = arc.x_num(k, d);
        let yn = arc.y_num(k, d);
        let y0 = self.points[0].pos().y as int;
        let sx = arc.start.x as int;
        let sy = arc.start.y as int;
        lemma_scale_bound(sy - y0, slope, sx, dd);
        assert(yn - y0 * dd == (yn - sy * dd) + (sy - y0) * dd) by (nonlinear_arith);
        assert(slope * (xn - sx * dd) + slope * (sx * dd) == slope * xn) by (nonlinear_arith);
        assert(abs(yn - y0 * dd) <= slope * xn);
        assert(0 * dd == 0) by (nonlinear_arith);
        assert(slope * xn <= (slope * PRECISION) * dd) by (nonlinear_arith)
            requires
                slope >= 0,
                xn < PRECISION * dd,
        ;
        assert(slope * PRECISION >= 0) by (nonlinear_arith)
            requires
                slope >= 0,
                PRECISION == 5,
        ;
        assert(yn * 1 - y0 * dd == yn - y0 * dd && (slope * PRECISION) * (1 * dd) == (slope
            * PRECISION) * dd) by (nonlinear_arith);
        lemma_round_div_close(y0, 1, yn, dd, slope * PRECISION);
        assert(round_div(y0, 1) == y0);
    }
}

} // verus!
