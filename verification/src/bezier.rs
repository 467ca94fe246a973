//! One quadratic arc of the curve, sampled at dyadic parameters, and the
//! bisection that finds the point of the arc above a given beat position.
//!
//! A parameter `t` in `[0, 1]` is written as a fraction `k / d`. The arc
//! through `start`, `control` and `end` is
//! `(1 - t)^2 * start + 2 * (1 - t) * t * control + t^2 * end`; multiplied by
//! `d * d` this is an integer, the *numerator* of the sample, so that every
//! comparison the search makes is exact.

use vstd::prelude::*;
use crate::geometry::{Pos, X_MAX, Y_MAX};

verus! {

/// How close, in x units, a sample has to come to the beat position that is
/// asked for: five thousandths of a beat.
pub const PRECISION: i64 = 5;

/// The search halves its step until the parameter's denominator reaches this
/// bound, `2^24`, which allows for twenty-four samples.
pub const MAX_DENOMINATOR: i64 = 16_777_216;

/// A quadratic arc: two points it passes through and the control point
/// between them.
#[derive(Clone, Copy, Debug, PartialEq, Eq, Structural)]
pub struct Segment {
    pub start: Pos,
    pub control: Pos,
    pub end: Pos,
}

/// `d * d` times the quadratic blend of `a`, `b` and `c` at `t = k / d`.
pub open spec fn blend(a: int, b: int, c: int, k: int, d: int) -> int {
    (d - k) * (d - k) * a + 2 * ((d - k) * k) * b + k * k * c
}

/// The integer nearest to `n / dd`, halves rounded up.
pub open spec fn round_div(n: int, dd: int) -> int {
    (2 * n + dd) / (2 * dd)
}

/// The three weights of a blend are not negative and add up to `d * d`.
pub proof fn lemma_weights(k: int, d: int)
    by (nonlinear_arith)
    requires
        0 <= k <= d,
    ensures
        (d - k) * (d - k) >= 0,
        (d - k) * k >= 0,
        k * k >= 0,
        (d - k) * (d - k) + 2 * ((d - k) * k) + k * k == d * d,
        (d - k) * (d - k) <= d * d,
        2 * ((d - k) * k) <= d * d,
        k * k <= d * d,
{
}

/// A blend lies between the least and the greatest of the three values it
/// blends.
pub proof fn lemma_blend_bounds(a: int, b: int, c: int, k: int, d: int, lo: int, hi: int)
    requires
        0 <= k <= d,
        lo <= a <= hi,
        lo <= b <= hi,
        lo <= c <= hi,
    ensures
        lo * (d * d) <= blend(a, b, c, k, d) <= hi * (d * d),
{
    lemma_weights(k, d);
    let w0 = (d - k) * (d - k);
    let w1 = 2 * ((d - k) * k);
    let w2 = k * k;
    assert(w0 * lo <= w0 * a <= w0 * hi) by (nonlinear_arith)
        requires
            w0 >= 0,
            lo <= a <= hi,
    ;
    assert(w1 * lo <= w1 * b <= w1 * hi) by (nonlinear_arith)
        requires
            w1 >= 0,
            lo <= b <= hi,
    ;
    assert(w2 * lo <= w2 * c <= w2 * hi) by (nonlinear_arith)
        requires
            w2 >= 0,
            lo <= c <= hi,
    ;
    assert(w0 * lo + w1 * lo + w2 * lo == lo * (d * d)) by (nonlinear_arith)
        requires
            w0 + w1 + w2 == d * d,
    ;
    assert(w0 * hi + w1 * hi + w2 * hi == hi * (d * d)) by (nonlinear_arith)
        requires
            w0 + w1 + w2 == d * d,
    ;
}

/// At `t = 0` the blend is its first value, at `t = 1` its last.
pub proof fn lemma_blend_ends(a: int, b: int, c: int, d: int)
    by (nonlinear_arith)
    ensures
        blend(a, b, c, 0, d) == d * d * a,
        blend(a, b, c, d, d) == d * d * c,
{
}

/// Writing the parameter `k / d` as `2k / 2d` multiplies the numerator by
/// four.
pub proof fn lemma_blend_doubles(a: int, b: int, c: int, k: int, d: int)
    by (nonlinear_arith)
    ensures
        blend(a, b, c, 2 * k, 2 * d) == 4 * blend(a, b, c, k, d),
{
}

/// Where `a <= b <= c`, the blend does not fall when the parameter grows by
/// `1 / d`, and it rises by no more than `2 * d * (c - a)`.
pub proof fn lemma_blend_step(a: int, b: int, c: int, k: int, d: int)
    requires
        0 <= k < d,
        a <= b <= c,
    ensures
        0 <= blend(a, b, c, k + 1, d) - blend(a, b, c, k, d) <= 2 * d * (c - a),
{
    let rise = blend(a, b, c, k + 1, d) - blend(a, b, c, k, d);
    let p = 2 * d - 2 * k - 1;
    let q = 2 * k + 1;
    let h = d - k;
    let w0 = h * h;
    let w1 = h * k;
    let w2 = k * k;
    let v0 = (h - 1) * (h - 1);
    let v1 = (h - 1) * (k + 1);
    let v2 = (k + 1) * (k + 1);
    assert(v0 == w0 - p) by (nonlinear_arith)
        requires
            v0 == (h - 1) * (h - 1),
            w0 == h * h,
            p == 2 * h - 1,
    ;
    assert(2 * v1 == 2 * w1 + p - q) by (nonlinear_arith)
        requires
            v1 == (h - 1) * (k + 1),
            w1 == h * k,
            p == 2 * h - 1,
            q == 2 * k + 1,
    ;
    assert(v2 == w2 + q) by (nonlinear_arith)
        requires
            v2 == (k + 1) * (k + 1),
            w2 == k * k,
            q == 2 * k + 1,
    ;
    assert(v0 * a == w0 * a - p * a) by (nonlinear_arith)
        requires
            v0 == w0 - p,
    ;
    assert((2 * v1) * b == (2 * w1) * b + p * b - q * b) by (nonlinear_arith)
        requires
            2 * v1 == 2 * w1 + p - q,
    ;
    assert(v2 * c == w2 * c + q * c) by (nonlinear_arith)
        requires
            v2 == w2 + q,
    ;
    assert(d - (k + 1) == h - 1);
    assert(blend(a, b, c, k + 1, d) == v0 * a + (2 * v1) * b + v2 * c);
    assert(blend(a, b, c, k, d) == w0 * a + (2 * w1) * b + w2 * c);
    assert((b - a) * p + (c - b) * q == p * b - p * a + q * c - q * b) by (nonlinear_arith);
    assert(rise == (b - a) * p + (c - b) * q);
    assert(0 <= (b - a) * p <= (b - a) * (2 * d)) by (nonlinear_arith)
        requires
            0 <= b - a,
            0 <= p <= 2 * d,
    ;
    assert(0 <= (c - b) * q <= (c - b) * (2 * d)) by (nonlinear_arith)
        requires
            0 <= c - b,
            0 <= q <= 2 * d,
    ;
    assert((b - a) * (2 * d) + (c - b) * (2 * d) == 2 * d * (c - a)) by (nonlinear_arith);
}

/// Rounding a quotient keeps it between integer bounds of the quotient.
pub proof fn lemma_round_div_bounds(n: int, dd: int, lo: int, hi: int)
    requires
        dd > 0,
        lo * dd <= n <= hi * dd,
    ensures
        lo <= round_div(n, dd) <= hi,
{
    let q = round_div(n, dd);
    vstd::arithmetic::div_mod::lemma_fundamental_div_mod(2 * n + dd, 2 * dd);
    let r = (2 * n + dd) % (2 * dd);
    assert(0 <= r < 2 * dd) by {
        vstd::arithmetic::div_mod::lemma_mod_bound(2 * n + dd, 2 * dd);
    }
    assert(2 * n + dd == (2 * dd) * q + r);
    if q < lo {
        assert((2 * dd) * (q + 1) <= (2 * dd) * lo) by (nonlinear_arith)
            requires
                q + 1 <= lo,
                dd > 0,
        ;
        assert((2 * dd) * (q + 1) == (2 * dd) * q + 2 * dd) by (nonlinear_arith);
        assert((2 * dd) * lo == 2 * (lo * dd)) by (nonlinear_arith);
    }
    if q > hi {
        assert((2 * dd) * q >= (2 * dd) * (hi + 1)) by (nonlinear_arith)
            requires
                q >= hi + 1,
                dd > 0,
        ;
        assert((2 * dd) * (hi + 1) == 2 * (hi * dd) + 2 * dd) by (nonlinear_arith);
    }
}

impl Segment {
    /// Whether the three points lie in the logical domain.
    pub open spec fn in_domain(self) -> bool {
        self.start.in_domain() && self.control.in_domain() && self.end.in_domain()
    }

    /// Whether x does not fall along the arc: the control point lies between
    /// the two ends in x.
    pub open spec fn monotone(self) -> bool {
        self.start.x <= self.control.x <= self.end.x
    }

    /// Whether the three points share one y.
    pub open spec fn level(self) -> bool {
        self.start.y == self.control.y && self.control.y == self.end.y
    }

    /// The least of the three y coordinates.
    pub open spec fn y_low(self) -> int {
        let m = if self.start.y <= self.control.y { self.start.y } else { self.control.y };
        if m <= self.end.y { m as int } else { self.end.y as int }
    }

    /// The greatest of the three y coordinates.
    pub open spec fn y_high(self) -> int {
        let m = if self.start.y >= self.control.y { self.start.y } else { self.control.y };
        if m >= self.end.y { m as int } else { self.end.y as int }
    }

    /// `d * d` times the x coordinate of the arc at `t = k / d`.
    pub open spec fn x_num(self, k: int, d: int) -> int {
        blend(self.start.x as int, self.control.x as int, self.end.x as int, k, d)
    }

    /// `d * d` times the y coordinate of the arc at `t = k / d`.
    pub open spec fn y_num(self, k: int, d: int) -> int {
        blend(self.start.y as int, self.control.y as int, self.end.y as int, k, d)
    }

    /// The x coordinate of the arc at `t = k / d`, rounded to the nearest
    /// unit.
    pub open spec fn sample_x(self, k: int, d: int) -> int {
        round_div(self.x_num(k, d), d * d)
    }

    /// The y coordinate of the arc at `t = k / d`, rounded to the nearest
    /// unit.
    pub open spec fn sample_y(self, k: int, d: int) -> int {
        round_div(self.y_num(k, d), d * d)
    }

    /// Whether the arc at `t = k / d` is less than `PRECISION` away from `x`
    /// in x, compared exactly.
    pub open spec fn close(self, x: int, k: int, d: int) -> bool {
        let e = self.x_num(k, d) - x * (d * d);
        -PRECISION * (d * d) < e < PRECISION * (d * d)
    }

    /// Where the bisection that stands at `t = k / d` ends, as the pair
    /// `(k, d)` of its last sample. It stops at a sample that is close to
    /// `x`, or when the denominator has reached `MAX_DENOMINATOR`; otherwise
    /// it moves `t` by `1 / (2 * d)`, up when the sample lies left of `x` and
    /// down when it does not.
    pub open spec fn bisect(self, x: int, k: int, d: int) -> (int, int)
        decreases 2 * MAX_DENOMINATOR - d,
    {
        if d <= 0 || d >= MAX_DENOMINATOR || self.close(x, k, d) {
            (k, d)
        } else if self.x_num(k, d) < x * (d * d) {
            self.bisect(x, 2 * k + 1, 2 * d)
        } else {
            self.bisect(x, 2 * k - 1, 2 * d)
        }
    }

    /// The parameter, as the pair `(k, d)`, at which the search for `x`
    /// ends. It starts in the middle of the arc, at `t = 1 / 2`.
    pub open spec fn found(self, x: int) -> (int, int) {
        self.bisect(x, 1, 2)
    }

    /// The y coordinate that the search for `x` reports.
    pub open spec fn spec_solve(self, x: int) -> int {
        self.sample_y(self.found(x).0, self.found(x).1)
    }

    /// The two numerators of the arc at `t = k / d`.
    fn numerators(&self, k: i128, d: i128) -> (n: (i128, i128))
        requires
            self.in_domain(),
            0 <= k <= d <= 2 * MAX_DENOMINATOR,
        ensures
            n.0 == self.x_num(k as int, d as int),
            n.1 == self.y_num(k as int, d as int),
            0 <= n.0 <= X_MAX * (d * d),
            0 <= n.1 <= Y_MAX * (d * d),
            0 <= d * d <= 0x4_0000_0000_0000,
    {
        let h: i128 = d - k;
        proof {
            lemma_weight_fits(h as int, h as int);
            lemma_weight_fits(h as int, k as int);
            lemma_weight_fits(k as int, k as int);
            lemma_weight_fits(d as int, d as int);
            lemma_weights(k as int, d as int);
            lemma_blend_bounds(
                self.start.x as int,
                self.control.x as int,
                self.end.x as int,
                k as int,
                d as int,
                0,
                X_MAX as int,
            );
            lemma_blend_bounds(
                self.start.y as int,
                self.control.y as int,
                self.end.y as int,
                k as int,
                d as int,
                0,
                Y_MAX as int,
            );
        }
        let w0: i128 = h * h;
        let hk: i128 = h * k;
        let w1: i128 = 2 * hk;
        let w2: i128 = k * k;
        let sx: i128 = self.start.x as i128;
        let cx: i128 = self.control.x as i128;
        let ex: i128 = self.end.x as i128;
        let sy: i128 = self.start.y as i128;
        let cy: i128 = self.control.y as i128;
        let ey: i128 = self.end.y as i128;
        proof {
            lemma_term_fits(w0 as int, sx as int);
            lemma_term_fits(w1 as int, cx as int);
            lemma_term_fits(w2 as int, ex as int);
            lemma_term_fits(w0 as int, sy as int);
            lemma_term_fits(w1 as int, cy as int);
            lemma_term_fits(w2 as int, ey as int);
        }
        let xn: i128 = w0 * sx + w1 * cx + w2 * ex;
        let yn: i128 = w0 * sy + w1 * cy + w2 * ey;
        (xn, yn)
    }

    /// The point of the arc at `t = k / d`, each coordinate rounded to the
    /// nearest unit.
    pub fn sample(&self, k: u32, d: u32) -> (p: Pos)
        requires
            self.in_domain(),
            0 <= k <= d <= MAX_DENOMINATOR,
            d > 0,
        ensures
            p.x == self.sample_x(k as int, d as int),
            p.y == self.sample_y(k as int, d as int),
            p.in_domain(),
            self.y_low() <= p.y <= self.y_high(),
    {
        let n = self.numerators(k as i128, d as i128);
        let dd: i128 = (d as i128) * (d as i128);
        proof {
            assert(dd > 0) by (nonlinear_arith)
                requires
                    dd == d * d,
                    d > 0,
            ;
            lemma_round_div_bounds(n.0 as int, dd as int, 0, X_MAX as int);
            lemma_round_div_bounds(n.1 as int, dd as int, 0, Y_MAX as int);
            self.lemma_sample_y_in_range(k as int, d as int);
        }
        let x: i128 = (2 * n.0 + dd) / (2 * dd);
        let y: i128 = (2 * n.1 + dd) / (2 * dd);
        Pos { x: x as i64, y: y as i64 }
    }

    /// Searches the arc for the point above the beat position `x` and
    /// returns its y coordinate, rounded to the nearest unit.
    ///
    /// The search is a bisection on the parameter: it samples the arc in the
    /// middle and halves its step with every further sample, until a sample
    /// is less than `PRECISION` away from `x` or twenty-four samples were
    /// taken, and reports the last sample. Along an arc on which x does not
    /// fall, and for an `x` between the arc's ends, a dozen samples are
    /// enough; see [`Segment::lemma_solve_converges`].
    pub fn solve(&self, x: i64) -> (y: i64)
        requires
            self.in_domain(),
        ensures
            y == self.spec_solve(x as int),
            0 <= y <= Y_MAX,
            self.y_low() <= y <= self.y_high(),
    {
        let mut k: i128 = 1;
        let mut d: i128 = 2;
        loop
            invariant
                self.in_domain(),
                1 <= k < d < 2 * MAX_DENOMINATOR,
                self.bisect(x as int, k as int, d as int) == self.found(x as int),
            decreases 2 * MAX_DENOMINATOR - d,
        {
            let n = self.numerators(k, d);
            let dd: i128 = d * d;
            proof {
                assert(dd > 0) by (nonlinear_arith)
                    requires
                        dd == d * d,
                        d > 0,
                ;
                lemma_term_fits(dd as int, x as int);
                lemma_term_fits(dd as int, PRECISION as int);
                lemma_term_fits(dd as int, X_MAX as int);
                lemma_term_fits(dd as int, Y_MAX as int);
            }
            let target: i128 = (x as i128) * dd;
            let tolerance: i128 = (PRECISION as i128) * dd;
            let e: i128 = n.0 - target;
            if d >= MAX_DENOMINATOR as i128 || (-tolerance < e && e < tolerance) {
                proof {
                    lemma_round_div_bounds(n.1 as int, dd as int, 0, Y_MAX as int);
                    self.lemma_sample_y_in_range(k as int, d as int);
                }
                let y: i128 = (2 * n.1 + dd) / (2 * dd);
                return y as i64;
            }
            if e < 0 {
                k = 2 * k + 1;
            } else {
                k = 2 * k - 1;
            }
            d = 2 * d;
        }
    }

    /// A sample's y lies between the least and the greatest y of the three
    /// points.
    pub proof fn lemma_sample_y_in_range(self, k: int, d: int)
        requires
            0 <= k <= d,
            d > 0,
        ensures
            self.y_low() <= self.sample_y(k, d) <= self.y_high(),
    {
        lemma_blend_bounds(
            self.start.y as int,
            self.control.y as int,
            self.end.y as int,
            k,
            d,
            self.y_low(),
            self.y_high(),
        );
        assert(d * d > 0) by (nonlinear_arith)
            requires
                d > 0,
        ;
        lemma_round_div_bounds(self.y_num(k, d), d * d, self.y_low(), self.y_high());
    }
}

impl Segment {
    /// Whether `x` lies between the arc's x one step of `1 / d` below
    /// `t = k / d` and one step above it.
    pub open spec fn brackets(self, x: int, k: int, d: int) -> bool {
        self.x_num(k - 1, d) <= x * (d * d) <= self.x_num(k + 1, d)
    }

    /// The bisection keeps its parameter strictly inside `(0, 1)`.
    pub proof fn lemma_bisect_inside(self, x: int, k: int, d: int)
        requires
            1 <= k < d,
        ensures
            1 <= self.bisect(x, k, d).0 < self.bisect(x, k, d).1,
        decreases 2 * MAX_DENOMINATOR - d,
    {
        if d <= 0 || d >= MAX_DENOMINATOR || self.close(x, k, d) {
        } else if self.x_num(k, d) < x * (d * d) {
            self.lemma_bisect_inside(x, 2 * k + 1, 2 * d);
        } else {
            self.lemma_bisect_inside(x, 2 * k - 1, 2 * d);
        }
    }

    /// On an arc along which x does not fall, a bisection whose bracket
    /// holds `x` ends at a sample that is close to `x`: it never runs into
    /// the bound on the denominator.
    pub proof fn lemma_bisect_converges(self, x: int, k: int, d: int)
        requires
            self.in_domain(),
            self.monotone(),
            1 <= k < d,
            self.brackets(x, k, d),
        ensures
            self.close(x, self.bisect(x, k, d).0, self.bisect(x, k, d).1),
        decreases 2 * MAX_DENOMINATOR - d,
    {
        let sx = self.start.x as int;
        let cx = self.control.x as int;
        let ex = self.end.x as int;
        let target = x * (d * d);
        if d > 1600 {
            lemma_blend_step(sx, cx, ex, k - 1, d);
            lemma_blend_step(sx, cx, ex, k, d);
            assert(2 * d * (ex - sx) <= 8000 * d) by (nonlinear_arith)
                requires
                    d > 0,
                    0 <= ex - sx <= 4000,
            ;
            assert(8000 * d < PRECISION * (d * d)) by (nonlinear_arith)
                requires
                    d > 1600,
                    PRECISION == 5,
            ;
            assert(-PRECISION * (d * d) == -(PRECISION * (d * d))) by (nonlinear_arith);
            assert(self.close(x, k, d));
        } else if !self.close(x, k, d) {
            lemma_blend_doubles(sx, cx, ex, k - 1, d);
            lemma_blend_doubles(sx, cx, ex, k, d);
            lemma_blend_doubles(sx, cx, ex, k + 1, d);
            assert(x * ((2 * d) * (2 * d)) == 4 * (x * (d * d))) by (nonlinear_arith);
            if self.x_num(k, d) < target {
                assert(self.brackets(x, 2 * k + 1, 2 * d)) by {
                    assert(2 * k + 1 - 1 == 2 * k);
                    assert(2 * k + 1 + 1 == 2 * (k + 1));
                }
                self.lemma_bisect_converges(x, 2 * k + 1, 2 * d);
            } else {
                assert(self.brackets(x, 2 * k - 1, 2 * d)) by {
                    assert(2 * k - 1 - 1 == 2 * (k - 1));
                    assert(2 * k - 1 + 1 == 2 * k);
                }
                self.lemma_bisect_converges(x, 2 * k - 1, 2 * d);
            }
        }
    }

    /// On an arc along which x does not fall, the search for an `x` between
    /// the arc's two ends finds a sample less than `PRECISION` away from
    /// `x`, at a parameter strictly inside `(0, 1)`, and what it reports
    /// lies between the least and the greatest y of the arc's three points.
    pub proof fn lemma_solve_converges(self, x: int)
        requires
            self.in_domain(),
            self.monotone(),
            self.start.x <= x <= self.end.x,
        ensures
            self.close(x, self.found(x).0, self.found(x).1),
            1 <= self.found(x).0 < self.found(x).1,
            self.y_low() <= self.spec_solve(x) <= self.y_high(),
    {
        lemma_blend_ends(self.start.x as int, self.control.x as int, self.end.x as int, 2);
        assert(x * (2 * 2) == 4 * x) by (nonlinear_arith);
        assert(self.x_num(0, 2) == 4 * self.start.x);
        assert(self.x_num(2, 2) == 4 * self.end.x);
        self.lemma_bisect_converges(x, 1, 2);
        self.lemma_solve_in_range(x);
    }

    /// What the search reports lies between the least and the greatest y of
    /// the arc's three points, whatever the arc and `x`.
    pub proof fn lemma_solve_in_range(self, x: int)
        ensures
            1 <= self.found(x).0 < self.found(x).1,
            self.y_low() <= self.spec_solve(x) <= self.y_high(),
    {
        self.lemma_bisect_inside(x, 1, 2);
        self.lemma_sample_y_in_range(self.found(x).0, self.found(x).1);
    }

    /// At the parameters 0 and 1 a sample is the arc's start and its end.
    pub proof fn lemma_sample_ends(self, d: int)
        requires
            d > 0,
        ensures
            self.sample_x(0, d) == self.start.x,
            self.sample_y(0, d) == self.start.y,
            self.sample_x(d, d) == self.end.x,
            self.sample_y(d, d) == self.end.y,
    {
        lemma_blend_ends(self.start.x as int, self.control.x as int, self.end.x as int, d);
        lemma_blend_ends(self.start.y as int, self.control.y as int, self.end.y as int, d);
        assert(d * d > 0) by (nonlinear_arith)
            requires
                d > 0,
        ;
        let dd = d * d;
        assert(d * d * self.start.x == self.start.x * dd) by (nonlinear_arith)
            requires
                dd == d * d,
        ;
        assert(d * d * self.start.y == self.start.y * dd) by (nonlinear_arith)
            requires
                dd == d * d,
        ;
        assert(d * d * self.end.x == self.end.x * dd) by (nonlinear_arith)
            requires
                dd == d * d,
        ;
        assert(d * d * self.end.y == self.end.y * dd) by (nonlinear_arith)
            requires
                dd == d * d,
        ;
        lemma_round_div_bounds(self.x_num(0, d), dd, self.start.x as int, self.start.x as int);
        lemma_round_div_bounds(self.y_num(0, d), dd, self.start.y as int, self.start.y as int);
        lemma_round_div_bounds(self.x_num(d, d), dd, self.end.x as int, self.end.x as int);
        lemma_round_div_bounds(self.y_num(d, d), dd, self.end.y as int, self.end.y as int);
    }

    /// On a level arc the search reports the arc's y, whatever `x`.
    pub proof fn lemma_solve_level(self, x: int)
        requires
            self.level(),
        ensures
            self.spec_solve(x) == self.start.y,
    {
        self.lemma_solve_in_range(x);
    }
}

/// The product of two numbers up to `2^25` that are not negative is at most
/// `2^50`.
proof fn lemma_weight_fits(a: int, b: int)
    by (nonlinear_arith)
    requires
        0 <= a <= 0x200_0000,
        0 <= b <= 0x200_0000,
    ensures
        0 <= a * b <= 0x4_0000_0000_0000,
{
}

/// A weight of at most `2^50` times a 64-bit value has a size of at most
/// `2^113`, and is not negative where the value is not.
proof fn lemma_term_fits(w: int, v: int)
    by (nonlinear_arith)
    requires
        0 <= w <= 0x4_0000_0000_0000,
        -0x8000_0000_0000_0000 <= v <= 0x8000_0000_0000_0000,
    ensures
        -0x2_0000_0000_0000_0000_0000_0000_0000 <= w * v <= 0x2_0000_0000_0000_0000_0000_0000_0000,
        v >= 0 ==> w * v >= 0,
        v * w == w * v,
{
}

} // verus!
