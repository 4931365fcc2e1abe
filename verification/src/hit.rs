//! The hit record produced at a ray-object intersection, and the
//! capability every intersectable object offers.

use vstd::prelude::*;
use crate::vec::{Vec3, Point3, VMAX, vneg};
use crate::ray::{Ray, ray_wf};

verus! {

/// Data of one ray-object intersection. `mat` is the index of the
/// surface's material in the world's material table, so every record
/// against the same object shares one material instance.
#[derive(Clone, Copy, PartialEq, Eq, Structural, Debug)]
pub struct HitRecord {
    pub p: Point3,
    pub normal: Vec3,
    pub mat: usize,
    pub t: i64,
    pub front_face: bool,
}

impl HitRecord {
    /// Orient the stored normal against the incoming ray: if the ray
    /// opposes the outward geometric normal it is entering from
    /// outside, `front_face` is set and the outward normal is kept;
    /// otherwise the normal is flipped so it always points back toward
    /// the ray origin's side.
    pub fn set_face_normal(&mut self, r: &Ray, outward_normal: Vec3)
        requires
            r.dir.bounded(VMAX as int),
            outward_normal.bounded(VMAX as int),
        ensures
            final(self).front_face == (r.dir.dot_s(outward_normal) < 0),
            final(self).normal == (if r.dir.dot_s(outward_normal) < 0 {
                outward_normal
            } else {
                vneg(outward_normal)
            }),
            final(self).p == old(self).p,
            final(self).mat == old(self).mat,
            final(self).t == old(self).t,
    {
        self.front_face = r.direction().dot(outward_normal) < 0;
        self.normal = if self.front_face {
            outward_normal
        } else {
            outward_normal.neg()
        };
    }
}

/// The capability of every intersectable object: report the nearest
/// intersection with `r` whose parameter lies strictly inside
/// `(t_min, t_max)`, or nothing. Each implementor supplies the spec
/// value of its answer, so the exec result is pinned exactly.
pub trait Hit {
    /// Well-formedness the intersection test relies on.
    spec fn hit_wf(&self) -> bool;

    /// The mathematical value of `hit` on these arguments.
    spec fn spec_hit(&self, r: Ray, t_min: int, t_max: int) -> Option<HitRecord>;

    fn hit(&self, r: &Ray, t_min: i64, t_max: i64) -> (res: Option<HitRecord>)
        requires
            self.hit_wf(),
            ray_wf(*r),
        ensures
            res == self.spec_hit(*r, t_min as int, t_max as int),
    ;
}

} // verus!
