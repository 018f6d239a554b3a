//! Renderable output shared by both solvers.
//!
//! Each solver regenerates a flat buffer of colored points every step; the
//! rendering layer consumes that buffer verbatim. Coordinates and color
//! channels are fixed-point raw values (see `crate::fixed`); color channels
//! represent `[0, 1]` as `[0, ONE]`.

use vstd::prelude::*;

verus! {

/// One renderable point: a position in the plane (z always zero) and an RGB
/// color.
#[derive(Clone, Copy, Debug)]
pub struct Instance {
    pub position: (i64, i64, i64),
    pub color: (i64, i64, i64),
}

/// A two-component fixed-point vector (positions, velocities, forces).
#[derive(Clone, Copy, Debug, PartialEq, Eq, Structural)]
pub struct Vec2 {
    pub x: i64,
    pub y: i64,
}

impl Vec2 {
    pub open spec fn spec_zero() -> Vec2 {
        Vec2 { x: 0, y: 0 }
    }

    pub fn zero() -> (r: Vec2)
        ensures
            r == Vec2::spec_zero(),
    {
        Vec2 { x: 0, y: 0 }
    }
}

} // verus!
