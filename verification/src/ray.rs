//! Rays: an origin and a direction, which need not have unit length.
use crate::fixed::Fixed;
use crate::vec3::Point3;
use crate::vec3::Vec3;
use vstd::prelude::*;

verus! {

#[derive(Clone, Copy, Debug, PartialEq, Eq, Structural)]
pub struct Ray {
    pub orig: Point3,
    pub dir: Vec3,
}

impl Ray {
    pub open spec fn at_spec(self, t: Fixed) -> Point3 {
        self.orig.plus(self.dir.scaled(t))
    }

    /// The point `orig + t * dir`.
    pub fn at(&self, t: Fixed) -> (p: Point3)
        ensures
            p == self.at_spec(t),
    {
        self.orig.add(self.dir.scale(t))
    }
}

} // verus!
