//! Rays: an origin and a direction.
use vstd::prelude::*;
use crate::fixed::in_range;
use crate::vec3::{vplus, vscale, Point3, Vec3};

verus! {

#[derive(Clone, Copy, Debug, PartialEq, Eq, Structural)]
pub struct Ray {
    pub orig: Point3,
    pub dir: Vec3,
}

impl Ray {
    pub open spec fn wf(self) -> bool {
        self.orig.wf() && self.dir.wf()
    }

    pub fn new(origin: Point3, direction: Vec3) -> (r: Ray)
        ensures
            r.orig == origin,
            r.dir == direction,
    {
        Ray { orig: origin, dir: direction }
    }

    pub fn origin(&self) -> (r: Point3)
        ensures
            r == self.orig,
    {
        self.orig
    }

    pub fn direction(&self) -> (r: Vec3)
        ensures
            r == self.dir,
    {
        self.dir
    }

    /// The point `origin + t * direction`.
    pub fn at(&self, t: i64) -> (r: Point3)
        requires
            self.wf(),
            in_range(t as int),
        ensures
            r == ray_at(*self, t as int),
            r.wf(),
    {
        self.orig.plus(self.dir.scale(t))
    }
}

pub open spec fn ray_at(r: Ray, t: int) -> Point3 {
    vplus(r.orig, vscale(r.dir, t))
}

} // verus!
