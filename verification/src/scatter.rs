//! Diffuse (Lambertian) material scattering.
//!
//! The scatter direction policy: a vector is drawn uniformly from the
//! fixed-point cube, redrawn until it falls inside the unit ball (with
//! a deterministic axis fallback after a bounded number of draws),
//! normalized, and added to the oriented surface normal. If the sum
//! degenerates to the zero vector the normal itself is used, so a
//! scattered ray always has a nonzero direction.

use vstd::prelude::*;
use crate::fixed::SCALE;
use crate::vec::{Vec3, Color, VMAX, vadd};
use crate::ray::Ray;
use crate::hit::HitRecord;
use crate::sphere::NMAX;

verus! {

/// Relies on `rand::random`: nothing can be promised of a random
/// draw, so the reduction into the fixed-point interval is done in
/// verified code downstream.
pub assume_specification<T>[ rand::random::<T> ]() -> (r: T)
    where
        rand::distributions::Standard: rand::distributions::Distribution<T>,
;

/// One uniform fixed-point coordinate in `[-1, 1]` wholes.
fn random_coord() -> (r: i64)
    ensures
        -SCALE <= r <= SCALE,
{
    let raw: u64 = rand::random();
    let m: u64 = raw % 131073;
    (m as i64) - SCALE
}

/// A (floor-)unit direction sampled from the unit ball: coordinates
/// are drawn from the cube and redrawn while they land outside the
/// ball; after a bounded number of misses an axis direction stands in.
pub fn random_unit_vector() -> (u: Vec3)
    ensures
        u.bounded(SCALE as int),
{
    let mut tries: usize = 0;
    while tries < 32
        invariant
            tries <= 32,
        decreases 32 - tries,
    {
        let v = Vec3::new(random_coord(), random_coord(), random_coord());
        let d: i64 = v.dot(v);
        if 0 < d && d <= 4294967296 {
            return v.normalized();
        }
        tries = tries + 1;
    }
    Vec3::new(SCALE, 0, 0)
}

/// The deterministic part of diffuse scattering: the scatter
/// direction is the oriented normal plus the sampled unit vector,
/// with the normal standing in when the sum degenerates to zero.
pub fn scatter_direction(normal: Vec3, u: Vec3) -> (d: Vec3)
    requires
        normal.bounded(NMAX as int),
        !normal.is_zero(),
        u.bounded(SCALE as int),
    ensures
        d == (if vadd(normal, u).is_zero() {
            normal
        } else {
            vadd(normal, u)
        }),
        !d.is_zero(),
        d.bounded(NMAX as int + SCALE as int),
{
    let s = normal.add(u);
    if s.x() == 0 && s.y() == 0 && s.z() == 0 {
        normal
    } else {
        s
    }
}

/// A diffuse surface that always scatters, attenuating by its albedo.
#[derive(Clone, Copy, PartialEq, Eq, Structural, Debug)]
pub struct Lambertian {
    pub albedo: Color,
}

/// What a successful scatter looks like: the attenuation is the
/// albedo, the scattered ray starts exactly at the hit point, and its
/// direction is the oriented normal plus some sampled unit-bounded
/// vector (the normal alone when that sum degenerates), so it is
/// nonzero and bounded.
pub open spec fn scatter_ok(l: Lambertian, rec: HitRecord, res: Option<(Color, Ray)>) -> bool {
    match res {
        Some((attenuation, scattered)) => {
            &&& attenuation == l.albedo
            &&& scattered.orig == rec.p
            &&& !scattered.dir.is_zero()
            &&& scattered.dir.bounded(NMAX as int + SCALE as int)
            &&& (exists|u: Vec3|
                u.bounded(SCALE as int) && scattered.dir == (if vadd(rec.normal, u).is_zero() {
                    rec.normal
                } else {
                    vadd(rec.normal, u)
                }))
        },
        None => false,
    }
}

impl Lambertian {
    pub fn new(a: Color) -> (l: Lambertian)
        ensures
            l.albedo == a,
    {
        Lambertian { albedo: a }
    }

    /// Diffuse scattering never absorbs: the result is always a
    /// scattered ray from the hit point, attenuated by the albedo.
    pub fn scatter(&self, _r_in: &Ray, rec: &HitRecord) -> (res: Option<(Color, Ray)>)
        requires
            rec.normal.bounded(NMAX as int),
            !rec.normal.is_zero(),
        ensures
            res is Some,
            scatter_ok(*self, *rec, res),
    {
        let u = random_unit_vector();
        let direction = scatter_direction(rec.normal, u);
        let scattered = Ray::new(rec.p, direction);
        proof {
            assert(u.bounded(SCALE as int) && scattered.dir == (if vadd(rec.normal, u).is_zero() {
                rec.normal
            } else {
                vadd(rec.normal, u)
            }));
        }
        Some((self.albedo, scattered))
    }
}

} // verus!
