//! Rays: a half-line from an origin along a direction.

use vstd::prelude::*;
use crate::vec3::Vec3;

verus! {

/// A half-line: the points `o + d * t` for the distances `t`.
#[derive(Clone, Copy, Debug, PartialEq, Eq, Structural)]
pub struct Ray {
    pub o: Vec3,
    pub d: Vec3,
}

impl Ray {
    /// The point of the ray at the distance `t`: `o + d * t`.
    pub open spec fn spec_at(self, t: i64) -> Vec3 {
        self.o.spec_add(self.d.spec_scale(t))
    }

    pub fn new(o: Vec3, d: Vec3) -> (r: Ray)
        ensures
            r == (Ray { o, d }),
    {
        Ray { o, d }
    }

    /// The point of the ray at the distance `t`.
    pub fn at(&self, t: i64) -> (p: Vec3)
        ensures
            p == self.spec_at(t),
    {
        self.o.add(self.d.scale(t))
    }
}

/// The three kinds of surface response.
#[derive(Clone, Copy, Debug, PartialEq, Eq, Structural)]
pub enum Refl {
    /// Diffuse.
    Diff,
    /// Specular.
    Spec,
    /// Refractive.
    Refr,
}

} // verus!
