//! Fragments: what the rasteriser hands to the shaders.

use vstd::prelude::*;
use crate::color::Color;
use crate::fixed::Point3;

verus! {

/// One candidate pixel of a primitive.
///
/// `x` and `y` count pixels. `depth` is the screen depth, smaller being
/// nearer. `intensity` is the light that falls on the fragment, in fixed
/// point. `vertex_position` is the place on the model that the fragment shows,
/// in fixed point: it stays the same when the camera moves.
#[derive(Debug, Clone, Copy, PartialEq, Eq, Structural)]
pub struct Fragment {
    pub x: i32,
    pub y: i32,
    pub color: Color,
    pub depth: i32,
    pub intensity: i32,
    pub vertex_position: Point3,
}

impl Fragment {
    /// The fragment with these values.
    pub fn new(
        x: i32,
        y: i32,
        color: Color,
        depth: i32,
        intensity: i32,
        vertex_position: Point3,
    ) -> (f: Fragment)
        ensures
            f == (Fragment { x, y, color, depth, intensity, vertex_position }),
    {
        Fragment { x, y, color, depth, intensity, vertex_position }
    }
}

} // verus!
