//! Rays: an origin and a direction, which need not have unit length.

use vstd::prelude::*;
use crate::scalar::Fixed;
use crate::vec3::{Point3, Vec3};

verus! {

#[derive(Clone, Copy, Debug, PartialEq, Eq, Structural)]
pub struct Ray {
    pub origin: Point3,
    pub direction: Vec3,
}

impl Ray {
    /// The point `origin + t * direction`.
    pub open spec fn spec_at(self, t: Fixed) -> Point3 {
        self.origin.spec_add(self.direction.spec_scale(t))
    }

    pub fn new(origin: Point3, direction: Vec3) -> (r: Ray)
        ensures
            r == (Ray { origin, direction }),
    {
        Ray { origin, direction }
    }

    pub fn at(&self, t: Fixed) -> (p: Point3)
        ensures
            p == self.spec_at(t),
    {
        self.origin + self.direction * t
    }
}

} // verus!
