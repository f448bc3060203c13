//! Rays: an origin and a direction.
use vstd::prelude::*;
use crate::fixed::in_range;
use crate::vec3::{plus, scale, vadd, vscale, Point3, Vec3};

verus! {

#[derive(Clone, Copy, Debug, PartialEq, Eq, Structural)]
pub struct Ray {
    pub origin: Point3,
    pub direction: Vec3,
}

/// The point `origin + t * direction`.
pub open spec fn at_spec(ray: Ray, t: int) -> Point3 {
    vadd(ray.origin, vscale(ray.direction, t))
}

impl Ray {
    pub open spec fn wf(self) -> bool {
        self.origin.wf() && self.direction.wf()
    }

    pub fn new(origin: Point3, direction: Vec3) -> (r: Ray)
        ensures
            r == (Ray { origin, direction }),
    {
        Ray { origin, direction }
    }

    pub fn at(&self, t: i128) -> (p: Point3)
        requires
            self.wf(),
            in_range(t as int),
        ensures
            p == at_spec(*self, t as int),
            p.wf(),
    {
        plus(self.origin, scale(self.direction, t))
    }
}

} // verus!
