//! The virtual camera: maps normalized image-plane coordinates to
//! primary rays.

use vstd::prelude::*;
use crate::fixed::{SCALE, tdiv};
use crate::vec::{Vec3, Point3, VMAX};
use crate::ray::Ray;

verus! {

/// Camera coordinates stay within a quarter of the world bound so a
/// generated ray direction (a sum of four such terms) stays within it.
pub const CMAX: i64 = 4194304;

/// A camera: rays leave `origin` toward a point of the viewport
/// rectangle spanned by `horizontal` and `vertical` from
/// `lower_left`.
#[derive(Clone, Copy, PartialEq, Eq, Structural, Debug)]
pub struct Camera {
    pub origin: Point3,
    pub lower_left: Point3,
    pub horizontal: Vec3,
    pub vertical: Vec3,
}

/// All camera coordinates within the camera bound.
pub open spec fn camera_wf(c: Camera) -> bool {
    &&& c.origin.bounded(CMAX as int)
    &&& c.lower_left.bounded(CMAX as int)
    &&& c.horizontal.bounded(CMAX as int)
    &&& c.vertical.bounded(CMAX as int)
}

impl Camera {
    /// The standard viewport: two wholes tall, 16:9 wide, one whole of
    /// focal length, at the origin.
    pub fn new() -> (c: Camera)
        ensures
            c.origin == (Vec3 { x: 0i64, y: 0i64, z: 0i64 }),
            c.horizontal == (Vec3 { x: 233016i64, y: 0i64, z: 0i64 }),
            c.vertical == (Vec3 { x: 0i64, y: 131072i64, z: 0i64 }),
            c.lower_left == (Vec3 { x: -116508i64, y: -65536i64, z: -65536i64 }),
            camera_wf(c),
    {
        Camera {
            origin: Vec3::new(0, 0, 0),
            horizontal: Vec3::new(233016, 0, 0),
            vertical: Vec3::new(0, 131072, 0),
            lower_left: Vec3::new(-116508, -65536, -65536),
        }
    }

    /// The primary ray through image-plane coordinates `(u, v)`, both
    /// in `[0, 1]` wholes.
    pub fn get_ray(&self, u: i64, v: i64) -> (r: Ray)
        requires
            camera_wf(*self),
            0 <= u <= SCALE,
            0 <= v <= SCALE,
        ensures
            r.orig == self.origin,
            r.dir.x == self.lower_left.x + tdiv(self.horizontal.x * u, SCALE as int) + tdiv(
                self.vertical.x * v,
                SCALE as int,
            ) - self.origin.x,
            r.dir.y == self.lower_left.y + tdiv(self.horizontal.y * u, SCALE as int) + tdiv(
                self.vertical.y * v,
                SCALE as int,
            ) - self.origin.y,
            r.dir.z == self.lower_left.z + tdiv(self.horizontal.z * u, SCALE as int) + tdiv(
                self.vertical.z * v,
                SCALE as int,
            ) - self.origin.z,
            r.dir.bounded(VMAX as int),
    {
        proof {
            crate::fixed::lemma_tdiv_bounds(self.horizontal.x * u, SCALE as int);
            crate::fixed::lemma_tdiv_bounds(self.horizontal.y * u, SCALE as int);
            crate::fixed::lemma_tdiv_bounds(self.horizontal.z * u, SCALE as int);
            crate::fixed::lemma_tdiv_bounds(self.vertical.x * v, SCALE as int);
            crate::fixed::lemma_tdiv_bounds(self.vertical.y * v, SCALE as int);
            crate::fixed::lemma_tdiv_bounds(self.vertical.z * v, SCALE as int);
            lemma_scale_unit_bound(self.horizontal.x as int, u as int);
            lemma_scale_unit_bound(self.horizontal.y as int, u as int);
            lemma_scale_unit_bound(self.horizontal.z as int, u as int);
            lemma_scale_unit_bound(self.vertical.x as int, v as int);
            lemma_scale_unit_bound(self.vertical.y as int, v as int);
            lemma_scale_unit_bound(self.vertical.z as int, v as int);
        }
        let dir = self.lower_left.add(self.horizontal.scale(u)).add(self.vertical.scale(v)).sub(
            self.origin,
        );
        Ray::new(self.origin, dir)
    }
}

/// Scaling by a factor in `[0, 1]` wholes never grows a coordinate's
/// magnitude.
proof fn lemma_scale_unit_bound(x: int, k: int)
    requires
        -(CMAX as int) <= x <= CMAX as int,
        0 <= k <= SCALE as int,
    ensures
        -(CMAX as int) <= tdiv(x * k, SCALE as int) <= CMAX as int,
{
    assert(-(CMAX as int) * SCALE <= x * k <= (CMAX as int) * SCALE) by (nonlinear_arith)
        requires -(CMAX as int) <= x <= CMAX as int && 0 <= k <= SCALE as int && SCALE == 65536;
    crate::vec::lemma_tdiv_shrinks_signed(x * k, SCALE as int, CMAX as int);
}

} // verus!
