//! An editable, piecewise-quadratic curve over a four-beat axis.
//!
//! All coordinates are fixed-point integers: one beat is 1000 units on the
//! x axis and one value step is 1000 units on the y axis, so the domain is
//! `[0, X_MAX] x [0, Y_MAX]`. The stored y axis points down; the value the
//! curve reports at a beat position is `Y_MAX - y`.

pub mod geometry;
pub mod point;
pub mod bezier;
pub mod model;
pub mod invariants;
pub mod curve;
pub mod laws;
pub mod continuity;
pub mod gesture;
pub mod tempo;
