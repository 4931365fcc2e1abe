//! Rays: origin plus direction, parameterized as `origin + t * direction`.

use vstd::prelude::*;
use crate::fixed::{SCALE, tdiv};
use crate::vec::{Vec3, Point3, VMAX};

verus! {

/// A half-line through `orig` along `dir`, both in fixed-point units.
#[derive(Clone, Copy, PartialEq, Eq, Structural, Debug)]
pub struct Ray {
    pub orig: Point3,
    pub dir: Vec3,
}

/// A ray the intersection algebra admits: coordinates within the
/// renderer's bound and a nonzero direction.
pub open spec fn ray_wf(r: Ray) -> bool {
    &&& r.orig.bounded(VMAX as int)
    &&& r.dir.bounded(VMAX as int)
    &&& !r.dir.is_zero()
}

impl Ray {
    pub fn new(origin: Point3, direction: Vec3) -> (r: Ray)
        ensures
            r.orig == origin,
            r.dir == direction,
    {
        Ray { orig: origin, dir: direction }
    }

    pub fn origin(&self) -> (p: Point3)
        ensures
            p == self.orig,
    {
        self.orig
    }

    pub fn direction(&self) -> (d: Vec3)
        ensures
            d == self.dir,
    {
        self.dir
    }

    /// The point the ray reaches at parameter `t`.
    pub fn at(&self, t: i64) -> (p: Point3)
        requires
            self.orig.bounded(VMAX as int),
            self.dir.bounded(VMAX as int),
            -VMAX <= t <= VMAX,
        ensures
            p.x == self.orig.x + tdiv(self.dir.x * t, SCALE as int),
            p.y == self.orig.y + tdiv(self.dir.y * t, SCALE as int),
            p.z == self.orig.z + tdiv(self.dir.z * t, SCALE as int),
    {
        self.orig.add(self.dir.scale(t))
    }
}

} // verus!
