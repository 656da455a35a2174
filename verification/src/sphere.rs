//! The scene's one geometric primitive: a sphere with a center, a radius and
//! a color.

use vstd::prelude::*;

use crate::math::{COORD_LIMIT, SCALE};
use crate::vec3::{bounded, v3, Vec3};

verus! {

/// An immutable sphere: fixed-point center and radius, and an RGB color with
/// each channel in `[0, SCALE]`.
#[derive(Clone, Copy, PartialEq, Eq, Structural, Debug)]
pub struct Sphere {
    pub center: Vec3,
    pub radius: i64,
    pub color: Vec3,
}

impl Sphere {
    /// A sphere is well formed when its center is within the world bounds,
    /// its radius is positive and bounded, and its color channels lie in the
    /// unit range `[0, SCALE]`.
    pub open spec fn wf(self) -> bool {
        &&& bounded(v3(self.center), COORD_LIMIT as int)
        &&& 0 < self.radius <= COORD_LIMIT
        &&& 0 <= self.color.x <= SCALE
        &&& 0 <= self.color.y <= SCALE
        &&& 0 <= self.color.z <= SCALE
    }

    /// Builds a well-formed sphere from its parts.
    pub fn new(center: Vec3, radius: i64, color: Vec3) -> (r: Sphere)
        requires
            bounded(v3(center), COORD_LIMIT as int),
            0 < radius <= COORD_LIMIT,
            0 <= color.x <= SCALE,
            0 <= color.y <= SCALE,
            0 <= color.z <= SCALE,
        ensures
            r.center == center,
            r.radius == radius,
            r.color == color,
            r.wf(),
    {
        Sphere { center, radius, color }
    }
}

} // verus!
