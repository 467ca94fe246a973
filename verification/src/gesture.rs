//! What a host's pointer gestures on a point of the curve do to the curve.

use vstd::prelude::*;
use crate::curve::Curve;
use crate::model::CurveModel;

verus! {

/// A gesture on one point of the curve, as the host has resolved it.
#[derive(Clone, Copy, Debug, PartialEq, Eq, Structural)]
pub enum Gesture {
    /// The point was dragged by a delta, in logical units.
    Drag { dx: i64, dy: i64 },
    /// The point was activated twice in a row.
    DoubleActivate,
    /// The point was activated with the secondary button.
    SecondaryActivate,
}

impl CurveModel {
    /// The curve after point `i` was activated: an end switches the link,
    /// a control point is straightened, an inner point is removed.
    pub open spec fn activate(self, i: int) -> CurveModel {
        if !self.has(i) {
            self
        } else if self.points[i].is_outer() {
            self.toggle_link(i)
        } else if self.points[i] is Bezier {
            self.straighten(i)
        } else {
            self.remove_point(i)
        }
    }

    /// Whether activating point `i` asks the host to refresh its display:
    /// not where it switches the link off, nor where there is no point `i`.
    pub open spec fn activate_refreshes(self, i: int) -> bool {
        self.has(i) && !(self.points[i].is_outer() && self.linked)
    }

    /// The curve after `gesture` on point `i`.
    pub open spec fn apply(self, i: int, gesture: Gesture) -> CurveModel {
        match gesture {
            Gesture::Drag { dx, dy } => if self.has(i) {
                self.move_point(i, self.points[i].pos().x + dx, self.points[i].pos().y + dy)
            } else {
                self
            },
            Gesture::DoubleActivate => self.activate(i),
            Gesture::SecondaryActivate => self.activate(i),
        }
    }

    /// Whether `gesture` on point `i` asks the host to refresh its display.
    pub open spec fn refreshes(self, i: int, gesture: Gesture) -> bool {
        match gesture {
            Gesture::Drag { .. } => self.mirrors(i),
            Gesture::DoubleActivate => self.activate_refreshes(i),
            Gesture::SecondaryActivate => self.activate_refreshes(i),
        }
    }
}

impl Curve {
    /// Activates point `i` and says whether the host should refresh its
    /// display: on an end it switches the link, a control point it
    /// straightens, an inner point it removes.
    pub fn activate(&mut self, i: usize) -> (refresh: bool)
        requires
            old(self).wf(),
        ensures
            final(self).wf(),
            final(self)@ == old(self)@.activate(i as int),
            refresh == old(self)@.activate_refreshes(i as int),
    {
        if i >= self.len() {
            return false;
        }
        proof {
            self@.lemma_kinds(i as int);
        }
        let point = self.points()[i];
        if point.is_outer() {
            self.toggle_link(i)
        } else if point.is_bezier() {
            self.straighten(i)
        } else {
            self.remove_point(i)
        }
    }

    /// Applies `gesture` on point `i` and says whether the host should
    /// refresh its display.
    pub fn apply(&mut self, i: usize, gesture: Gesture) -> (refresh: bool)
        requires
            old(self).wf(),
        ensures
            final(self).wf(),
            final(self)@ == old(self)@.apply(i as int, gesture),
            refresh == old(self)@.refreshes(i as int, gesture),
    {
        match gesture {
            Gesture::Drag { dx, dy } => self.drag_point(i, dx, dy),
            Gesture::DoubleActivate => self.activate(i),
            Gesture::SecondaryActivate => self.activate(i),
        }
    }
}

} // verus!
