//! Rays: an origin and a direction.

use vstd::prelude::*;

use crate::vec3::{spec_add, spec_scale, Point3, Vec3};

verus! {

/// The half-line `origin + t * direction`; the direction need not be of unit length.
#[derive(Clone, Copy, Debug, PartialEq, Eq, Structural)]
pub struct Ray {
    pub origin: Point3,
    pub direction: Vec3,
}

/// The point at parameter `t`.
pub open spec fn spec_at(ray: Ray, t: int) -> Point3 {
    spec_add(ray.origin, spec_scale(t, ray.direction))
}

impl Ray {
    pub fn new(origin: Point3, direction: Vec3) -> (r: Ray)
        ensures
            r == (Ray { origin, direction }),
    {
        Ray { origin, direction }
    }

    pub fn origin(&self) -> (r: Point3)
        ensures
            r == self.origin,
    {
        self.origin
    }

    pub fn direction(&self) -> (r: Vec3)
        ensures
            r == self.direction,
    {
        self.direction
    }

    /// The point at parameter `t`.
    pub fn at(&self, t: i64) -> (r: Point3)
        ensures
            r == spec_at(*self, t as int),
    {
        self.origin.plus(&self.direction.scaled(t))
    }
}

} // verus!
