//! The four kinds of curve point and what each offers to a host that edits
//! and draws them.

use vstd::prelude::*;
use crate::geometry::{Pos, Rect};

verus! {

/// Half the side of the square region around a point that reacts to the
/// pointer, in display units.
pub const CONTROL_POINT_RADIUS: i64 = 8;

/// A point of the curve, tagged with its role.
#[derive(Clone, Copy, Debug, PartialEq, Eq, Structural)]
pub enum CurvePoint {
    /// The left end of the curve; its x is pinned.
    First(Pos),
    /// A point between the ends that the curve passes through.
    Inner(Pos),
    /// The quadratic control point between two neighbouring points that the
    /// curve passes through.
    Bezier(Pos),
    /// The right end of the curve; its x is pinned.
    Last(Pos),
}

/// What to draw for a point, in display space. Every variant is an outline.
#[derive(Clone, Copy, Debug, PartialEq, Eq, Structural)]
pub enum Outline {
    /// A triangle through three corners.
    Triangle { a: Pos, b: Pos, c: Pos },
    /// A rectangle.
    Rectangle { rect: Rect },
    /// A circle.
    Circle { center: Pos, radius: i64 },
}

/// The square of side `2 * CONTROL_POINT_RADIUS` centred on `center`.
pub open spec fn square_around(center: Pos) -> Rect {
    Rect {
        min: Pos {
            x: (center.x - CONTROL_POINT_RADIUS) as i64,
            y: (center.y - CONTROL_POINT_RADIUS) as i64,
        },
        max: Pos {
            x: (center.x + CONTROL_POINT_RADIUS) as i64,
            y: (center.y + CONTROL_POINT_RADIUS) as i64,
        },
    }
}

/// Whether [`square_around`] of `center` can be represented.
pub open spec fn square_fits(center: Pos) -> bool {
    &&& i64::MIN + CONTROL_POINT_RADIUS <= center.x <= i64::MAX - CONTROL_POINT_RADIUS
    &&& i64::MIN + CONTROL_POINT_RADIUS <= center.y <= i64::MAX - CONTROL_POINT_RADIUS
}

/// Computes [`square_fits`].
pub fn square_fits_exec(center: Pos) -> (fits: bool)
    ensures
        fits == square_fits(center),
{
    i64::MIN + CONTROL_POINT_RADIUS <= center.x && center.x <= i64::MAX - CONTROL_POINT_RADIUS
        && i64::MIN + CONTROL_POINT_RADIUS <= center.y && center.y <= i64::MAX
        - CONTROL_POINT_RADIUS
}

impl CurvePoint {
    /// The position the point carries.
    pub open spec fn spec_pos(&self) -> Pos {
        match *self {
            CurvePoint::First(pos) => pos,
            CurvePoint::Inner(pos) => pos,
            CurvePoint::Bezier(pos) => pos,
            CurvePoint::Last(pos) => pos,
        }
    }

    /// Whether the point is one of the two ends.
    pub open spec fn spec_is_outer(&self) -> bool {
        *self is First || *self is Last
    }

    /// Whether the curve passes through the point: every kind but the control
    /// point.
    pub open spec fn is_structural(self) -> bool {
        !(self is Bezier)
    }

    /// The point after it was asked to move to `new_pos`: an end takes the
    /// new y and keeps its x, the other kinds take the whole position.
    pub open spec fn with_pos(self, new_pos: Pos) -> CurvePoint {
        match self {
            CurvePoint::First(pos) => CurvePoint::First(Pos { x: pos.x, y: new_pos.y }),
            CurvePoint::Last(pos) => CurvePoint::Last(Pos { x: pos.x, y: new_pos.y }),
            CurvePoint::Inner(_) => CurvePoint::Inner(new_pos),
            CurvePoint::Bezier(_) => CurvePoint::Bezier(new_pos),
        }
    }

    /// What is drawn for the point when it appears at `screen_pos`: a
    /// triangle pointing into the curve for an end, a square for an inner
    /// point, a circle for a control point.
    pub open spec fn spec_shape(&self, screen_pos: Pos) -> Outline {
        let rect = square_around(screen_pos);
        match *self {
            CurvePoint::First(_) => Outline::Triangle {
                a: Pos { x: screen_pos.x, y: rect.min.y },
                b: Pos { x: screen_pos.x, y: rect.max.y },
                c: Pos { x: rect.max.x, y: screen_pos.y },
            },
            CurvePoint::Inner(_) => Outline::Rectangle { rect },
            CurvePoint::Bezier(_) => Outline::Circle {
                center: screen_pos,
                radius: CONTROL_POINT_RADIUS,
            },
            CurvePoint::Last(_) => Outline::Triangle {
                a: Pos { x: screen_pos.x, y: rect.min.y },
                b: Pos { x: screen_pos.x, y: rect.max.y },
                c: Pos { x: rect.min.x, y: screen_pos.y },
            },
        }
    }

    pub fn is_start(&self) -> (b: bool)
        ensures
            b == (*self is First),
    {
        matches!(self, CurvePoint::First(_))
    }

    pub fn is_end(&self) -> (b: bool)
        ensures
            b == (*self is Last),
    {
        matches!(self, CurvePoint::Last(_))
    }

    pub fn is_inner(&self) -> (b: bool)
        ensures
            b == (*self is Inner),
    {
        matches!(self, CurvePoint::Inner(_))
    }

    #[verifier::when_used_as_spec(spec_is_outer)]
    pub fn is_outer(&self) -> (b: bool)
        ensures
            b == (*self is First || *self is Last),
    {
        matches!(self, CurvePoint::First(_) | CurvePoint::Last(_))
    }

    pub fn is_bezier(&self) -> (b: bool)
        ensures
            b == (*self is Bezier),
    {
        matches!(self, CurvePoint::Bezier(_))
    }

    #[verifier::when_used_as_spec(spec_pos)]
    pub fn pos(&self) -> (pos: Pos)
        ensures
            pos == self.spec_pos(),
    {
        match self {
            CurvePoint::First(pos) => *pos,
            CurvePoint::Inner(pos) => *pos,
            CurvePoint::Bezier(pos) => *pos,
            CurvePoint::Last(pos) => *pos,
        }
    }

    /// Moves the point to `new_pos` as far as its kind allows.
    pub fn set_pos(&mut self, new_pos: Pos)
        ensures
            *final(self) == old(self).with_pos(new_pos),
    {
        let moved = match *self {
            CurvePoint::First(pos) => CurvePoint::First(Pos { x: pos.x, y: new_pos.y }),
            CurvePoint::Last(pos) => CurvePoint::Last(Pos { x: pos.x, y: new_pos.y }),
            CurvePoint::Inner(_) => CurvePoint::Inner(new_pos),
            CurvePoint::Bezier(_) => CurvePoint::Bezier(new_pos),
        };
        *self = moved;
    }

    /// The region around the point that reacts to the pointer, for a point
    /// that the host shows at `screen_pos`.
    pub fn point_rect(&self, screen_pos: Pos) -> (rect: Rect)
        requires
            square_fits(screen_pos),
        ensures
            rect == square_around(screen_pos),
            rect.max.x - rect.min.x == 2 * CONTROL_POINT_RADIUS,
            rect.max.y - rect.min.y == 2 * CONTROL_POINT_RADIUS,
    {
        Rect {
            min: Pos {
                x: screen_pos.x - CONTROL_POINT_RADIUS,
                y: screen_pos.y - CONTROL_POINT_RADIUS,
            },
            max: Pos {
                x: screen_pos.x + CONTROL_POINT_RADIUS,
                y: screen_pos.y + CONTROL_POINT_RADIUS,
            },
        }
    }

    /// The outline to draw for the point when the host shows it at
    /// `screen_pos`.
    #[verifier::when_used_as_spec(spec_shape)]
    pub fn shape(&self, screen_pos: Pos) -> (outline: Outline)
        requires
            square_fits(screen_pos),
        ensures
            outline == self.spec_shape(screen_pos),
    {
        match self {
            CurvePoint::First(_) => {
                let rect = self.point_rect(screen_pos);
                Outline::Triangle {
                    a: Pos { x: screen_pos.x, y: rect.min.y },
                    b: Pos { x: screen_pos.x, y: rect.max.y },
                    c: Pos { x: rect.max.x, y: screen_pos.y },
                }
            },
            CurvePoint::Inner(_) => Outline::Rectangle { rect: self.point_rect(screen_pos) },
            CurvePoint::Bezier(_) => Outline::Circle {
                center: screen_pos,
                radius: CONTROL_POINT_RADIUS,
            },
            CurvePoint::Last(_) => {
                let rect = self.point_rect(screen_pos);
                Outline::Triangle {
                    a: Pos { x: screen_pos.x, y: rect.min.y },
                    b: Pos { x: screen_pos.x, y: rect.max.y },
                    c: Pos { x: rect.min.x, y: screen_pos.y },
                }
            },
        }
    }
}

} // verus!
