//! Vertices as the rasteriser sees them.

use vstd::prelude::*;
use crate::color::Color;
use crate::fixed::{Point3, ONE};

verus! {

/// A vertex after the transform stage.
///
/// `position` is the untransformed position in the model, in fixed point.
/// `frustum_position` is the position in normalised device coordinates, in
/// fixed point. `transformed_position` is the position on the screen: `x` and
/// `y` count pixels, `z` is the depth, smaller being nearer.
/// `transformed_normal` is the surface normal in the world, in fixed point.
#[derive(Debug, Clone, Copy, PartialEq, Eq, Structural)]
pub struct Vertex {
    pub position: Point3,
    pub color: Color,
    pub frustum_position: Point3,
    pub transformed_position: Point3,
    pub transformed_normal: Point3,
}

/// Whether a fixed-point coordinate lies in `-1..=1`.
pub open spec fn in_unit_range(v: i32) -> bool {
    -ONE <= v <= ONE
}

impl Vertex {
    /// Whether the vertex lies in the canonical view volume, the cube from -1
    /// to 1 on each axis.
    pub open spec fn spec_in_view(self) -> bool {
        &&& in_unit_range(self.frustum_position.x)
        &&& in_unit_range(self.frustum_position.y)
        &&& in_unit_range(self.frustum_position.z)
    }

    /// The vertex with these values.
    pub fn new(
        position: Point3,
        color: Color,
        frustum_position: Point3,
        transformed_position: Point3,
        transformed_normal: Point3,
    ) -> (v: Vertex)
        ensures
            v == (Vertex {
                position,
                color,
                frustum_position,
                transformed_position,
                transformed_normal,
            }),
    {
        Vertex { position, color, frustum_position, transformed_position, transformed_normal }
    }

    /// Whether the vertex lies in the canonical view volume.
    pub fn in_view(&self) -> (inside: bool)
        ensures
            inside == self.spec_in_view(),
    {
        let p = self.frustum_position;
        -ONE <= p.x && p.x <= ONE && -ONE <= p.y && p.y <= ONE && -ONE <= p.z && p.z <= ONE
    }
}

} // verus!
