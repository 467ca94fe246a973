//! Fixed-point positions, the logical domain, and the small pieces of
//! arithmetic (midpoint, clamp) that the curve operations are built from.

use vstd::prelude::*;

verus! {

/// Number of units that make up one beat on the x axis and one value step on
/// the y axis.
pub const UNITS: i64 = 1_000;

/// Right edge of the domain: four beats.
pub const X_MAX: i64 = 4_000;

/// Bottom edge of the domain: one hundred value steps.
pub const Y_MAX: i64 = 100_000;

/// A position, either in the logical domain or in display space.
#[derive(Clone, Copy, Debug, PartialEq, Eq, Structural)]
pub struct Pos {
    pub x: i64,
    pub y: i64,
}

/// An axis-aligned rectangle given by two opposite corners.
#[derive(Clone, Copy, Debug, PartialEq, Eq, Structural)]
pub struct Rect {
    pub min: Pos,
    pub max: Pos,
}

/// The integer halfway between `a` and `b`, rounded towards negative infinity.
pub open spec fn midpoint(a: int, b: int) -> int {
    (a + b) / 2
}

/// `v` moved into `[lo, hi]`: the nearer bound when `v` lies outside, `v`
/// itself otherwise. When `lo > hi` the lower bound wins for small `v` and the
/// upper bound for large `v`.
pub open spec fn clamp(v: int, lo: int, hi: int) -> int {
    if v < lo {
        lo
    } else if v > hi {
        hi
    } else {
        v
    }
}

/// Computes [`midpoint`] without overflow.
pub fn midpoint_i64(a: i64, b: i64) -> (m: i64)
    ensures
        m == midpoint(a as int, b as int),
{
    let sum: i128 = a as i128 + b as i128;
    let half: i128 = if sum >= 0 {
        sum / 2
    } else {
        (sum - 1) / 2
    };
    half as i64
}

/// Computes [`clamp`].
pub fn clamp_i64(v: i64, lo: i64, hi: i64) -> (c: i64)
    ensures
        c == clamp(v as int, lo as int, hi as int),
{
    if v < lo {
        lo
    } else if v > hi {
        hi
    } else {
        v
    }
}

impl Pos {
    /// Whether the position lies in the logical domain.
    pub open spec fn in_domain(self) -> bool {
        0 <= self.x <= X_MAX && 0 <= self.y <= Y_MAX
    }

    /// The position halfway between `self` and `other`, coordinate by
    /// coordinate.
    pub open spec fn spec_midpoint(self, other: Pos) -> Pos {
        Pos {
            x: midpoint(self.x as int, other.x as int) as i64,
            y: midpoint(self.y as int, other.y as int) as i64,
        }
    }

    /// The nearest position inside the logical domain.
    pub open spec fn spec_clamp_to_domain(self) -> Pos {
        Pos {
            x: clamp(self.x as int, 0, X_MAX as int) as i64,
            y: clamp(self.y as int, 0, Y_MAX as int) as i64,
        }
    }

    #[verifier::when_used_as_spec(spec_midpoint)]
    pub fn midpoint(self, other: Pos) -> (m: Pos)
        ensures
            m == self.spec_midpoint(other),
            m.x == midpoint(self.x as int, other.x as int),
            m.y == midpoint(self.y as int, other.y as int),
    {
        Pos { x: midpoint_i64(self.x, other.x), y: midpoint_i64(self.y, other.y) }
    }

    #[verifier::when_used_as_spec(spec_clamp_to_domain)]
    pub fn clamp_to_domain(self) -> (c: Pos)
        ensures
            c == self.spec_clamp_to_domain(),
            c.in_domain(),
    {
        Pos { x: clamp_i64(self.x, 0, X_MAX), y: clamp_i64(self.y, 0, Y_MAX) }
    }
}

/// The midpoint of two numbers lies between them.
pub proof fn lemma_midpoint_between(a: int, b: int)
    requires
        a <= b,
    ensures
        a <= midpoint(a, b) <= b,
{
}

/// The midpoint of two positions of the domain lies in the domain, between
/// the two in each coordinate's order.
pub proof fn lemma_midpoint_in_domain(a: Pos, b: Pos)
    requires
        a.in_domain(),
        b.in_domain(),
    ensures
        a.midpoint(b).in_domain(),
        a.x <= b.x ==> a.x <= a.midpoint(b).x <= b.x,
        a.midpoint(b).x == midpoint(a.x as int, b.x as int),
        a.midpoint(b).y == midpoint(a.y as int, b.y as int),
{
}

} // verus!
