//! Analytic ray-sphere intersection.

use vstd::prelude::*;
use crate::fixed::{
    SCALE, tdiv, sqrt_floor, is_sqrt_floor, tdiv_i128, isqrt_u128,
    lemma_sqrt_floor_unique, lemma_sqrt_floor_exists, lemma_tdiv_mono, lemma_tdiv_bounds,
    lemma_mul_abs_bound,
};
use crate::vec::{Vec3, Point3, VMAX, vneg, lemma_sq_nonneg, lemma_sq_pos};
use crate::ray::{Ray, ray_wf};
use crate::hit::{HitRecord, Hit};

verus! {

/// Largest magnitude the renderer admits for a component of an
/// outward normal: two wholes, leaving room for truncation slack
/// around a unit vector.
pub const NMAX: i64 = 131072;

/// A sphere: center, positive radius, and the index of its material
/// in the world's material table.
#[derive(Clone, Copy, PartialEq, Eq, Structural, Debug)]
pub struct Sphere {
    pub center: Point3,
    pub radius: i64,
    pub mat: usize,
}

/// A sphere the intersection algebra admits.
pub open spec fn sphere_wf(s: Sphere) -> bool {
    &&& s.center.bounded(VMAX as int)
    &&& 0 < s.radius <= VMAX
}

/// Quadratic coefficient `a = dot(D, D)` of `|O + tD - C|^2 = r^2`.
pub open spec fn coef_a(r: Ray) -> int {
    r.dir.dot_s(r.dir)
}

/// Quadratic coefficient `b = 2 * dot(O - C, D)`.
pub open spec fn coef_b(s: Sphere, r: Ray) -> int {
    2 * ((r.orig.x - s.center.x) * r.dir.x
        + (r.orig.y - s.center.y) * r.dir.y
        + (r.orig.z - s.center.z) * r.dir.z)
}

/// Quadratic coefficient `c = dot(O - C, O - C) - r^2`; its sign says
/// whether the ray origin lies outside (positive) or inside (negative)
/// the sphere.
pub open spec fn coef_c(s: Sphere, r: Ray) -> int {
    (r.orig.x - s.center.x) * (r.orig.x - s.center.x)
        + (r.orig.y - s.center.y) * (r.orig.y - s.center.y)
        + (r.orig.z - s.center.z) * (r.orig.z - s.center.z)
        - s.radius * s.radius
}

/// Discriminant `b^2 - 4ac`; negative means the ray's line misses.
pub open spec fn disc(s: Sphere, r: Ray) -> int {
    coef_b(s, r) * coef_b(s, r) - 4 * (coef_a(r) * coef_c(s, r))
}

/// The near root `(-b - sqrt(disc)) / (2a)`, in fixed-point units.
pub open spec fn root0(s: Sphere, r: Ray) -> int {
    tdiv((-coef_b(s, r) - sqrt_floor(disc(s, r))) * SCALE, 2 * coef_a(r))
}

/// The far root `(-b + sqrt(disc)) / (2a)`, in fixed-point units.
pub open spec fn root1(s: Sphere, r: Ray) -> int {
    tdiv((-coef_b(s, r) + sqrt_floor(disc(s, r))) * SCALE, 2 * coef_a(r))
}

/// A component of the point the ray reaches at parameter `t`.
pub open spec fn point_x(r: Ray, t: int) -> int {
    r.orig.x + tdiv(t * r.dir.x, SCALE as int)
}

pub open spec fn point_y(r: Ray, t: int) -> int {
    r.orig.y + tdiv(t * r.dir.y, SCALE as int)
}

pub open spec fn point_z(r: Ray, t: int) -> int {
    r.orig.z + tdiv(t * r.dir.z, SCALE as int)
}

/// A component of the outward normal `(point - center) / radius`.
pub open spec fn normal_x(s: Sphere, r: Ray, t: int) -> int {
    tdiv((point_x(r, t) - s.center.x) * SCALE, s.radius as int)
}

pub open spec fn normal_y(s: Sphere, r: Ray, t: int) -> int {
    tdiv((point_y(r, t) - s.center.y) * SCALE, s.radius as int)
}

pub open spec fn normal_z(s: Sphere, r: Ray, t: int) -> int {
    tdiv((point_z(r, t) - s.center.z) * SCALE, s.radius as int)
}

/// The hit point and outward normal derived from root `t` stay within
/// the renderer's coordinate bounds and the normal is nonzero — the
/// representability side of accepting a root.
pub open spec fn rep_ok(s: Sphere, r: Ray, t: int) -> bool {
    &&& -VMAX <= point_x(r, t) <= VMAX
    &&& -VMAX <= point_y(r, t) <= VMAX
    &&& -VMAX <= point_z(r, t) <= VMAX
    &&& -NMAX <= normal_x(s, r, t) <= NMAX
    &&& -NMAX <= normal_y(s, r, t) <= NMAX
    &&& -NMAX <= normal_z(s, r, t) <= NMAX
    &&& !(normal_x(s, r, t) == 0 && normal_y(s, r, t) == 0 && normal_z(s, r, t) == 0)
}

/// A root is accepted when it lies strictly inside the search interval
/// and its derived record is representable.
pub open spec fn valid_root(s: Sphere, r: Ray, t: int, t_min: int, t_max: int) -> bool {
    t_min < t < t_max && rep_ok(s, r, t)
}

/// The outward (un-oriented) normal at root `t`.
pub open spec fn outward_at(s: Sphere, r: Ray, t: int) -> Vec3 {
    Vec3 {
        x: normal_x(s, r, t) as i64,
        y: normal_y(s, r, t) as i64,
        z: normal_z(s, r, t) as i64,
    }
}

/// The record built from an accepted root, with the normal oriented
/// against the incoming ray.
pub open spec fn mk_rec(s: Sphere, r: Ray, t: int) -> HitRecord {
    let p = Vec3 { x: point_x(r, t) as i64, y: point_y(r, t) as i64, z: point_z(r, t) as i64 };
    let outward = outward_at(s, r, t);
    let ff = r.dir.dot_s(outward) < 0;
    HitRecord {
        p,
        normal: if ff { outward } else { vneg(outward) },
        mat: s.mat,
        t: t as i64,
        front_face: ff,
    }
}

/// The whole intersection contract: miss when the discriminant is
/// negative, else the near root if acceptable, else the far root,
/// else nothing.
pub open spec fn spec_sphere_hit(s: Sphere, r: Ray, t_min: int, t_max: int) -> Option<HitRecord> {
    if disc(s, r) < 0 {
        None
    } else if valid_root(s, r, root0(s, r), t_min, t_max) {
        Some(mk_rec(s, r, root0(s, r)))
    } else if valid_root(s, r, root1(s, r), t_min, t_max) {
        Some(mk_rec(s, r, root1(s, r)))
    } else {
        None
    }
}

/// Entering hits keep the outward normal: whenever a hit is reported
/// and the incoming ray opposes the outward geometric normal at the
/// hit point — the ray struck the surface from its outside — the
/// record is front-facing, stores that outward normal unchanged, and
/// the stored normal points back toward the ray origin's half-space.
pub proof fn lemma_entering_hit_orientation(s: Sphere, r: Ray, t_min: int, t_max: int)
    requires
        i64::MIN <= t_min <= i64::MAX,
        i64::MIN <= t_max <= i64::MAX,
    ensures
        spec_sphere_hit(s, r, t_min, t_max) matches Some(rec) ==> {
            r.dir.dot_s(outward_at(s, r, rec.t as int)) < 0 ==> {
                &&& rec.front_face
                &&& rec.normal == outward_at(s, r, rec.t as int)
                &&& r.dir.dot_s(rec.normal) < 0
            }
        },
{
    lemma_sphere_hit_chosen(s, r, t_min, t_max);
}

/// Exiting hits flip the normal: whenever a hit is reported and the
/// incoming ray does not oppose the outward geometric normal at the
/// hit point — the ray origin lay inside the surface — the record is
/// not front-facing and stores the negated outward normal.
pub proof fn lemma_exiting_hit_orientation(s: Sphere, r: Ray, t_min: int, t_max: int)
    requires
        i64::MIN <= t_min <= i64::MAX,
        i64::MIN <= t_max <= i64::MAX,
    ensures
        spec_sphere_hit(s, r, t_min, t_max) matches Some(rec) ==> {
            r.dir.dot_s(outward_at(s, r, rec.t as int)) >= 0 ==> {
                &&& !rec.front_face
                &&& rec.normal == vneg(outward_at(s, r, rec.t as int))
            }
        },
{
    lemma_sphere_hit_chosen(s, r, t_min, t_max);
}

/// The near root is preferred: whenever the smaller root of the
/// quadratic is itself acceptable, the reported record carries it.
pub proof fn lemma_prefers_near_root(s: Sphere, r: Ray, t_min: int, t_max: int)
    ensures
        disc(s, r) >= 0 && valid_root(s, r, root0(s, r), t_min, t_max) ==> spec_sphere_hit(
            s,
            r,
            t_min,
            t_max,
        ) == Some(mk_rec(s, r, root0(s, r))),
{
}

/// A ray that starts inside the sphere — the constant coefficient of
/// the quadratic is negative — and searches forward can only be
/// reported leaving through the far root: the near root lies at or
/// behind the origin, so it is never accepted.
pub proof fn lemma_inside_hit_is_far_root(s: Sphere, r: Ray, t_min: int, t_max: int)
    requires
        coef_a(r) > 0,
        coef_c(s, r) < 0,
        t_min >= 0,
        i64::MIN <= t_min <= i64::MAX,
        i64::MIN <= t_max <= i64::MAX,
    ensures
        spec_sphere_hit(s, r, t_min, t_max) matches Some(rec) ==> rec.t as int == root1(s, r),
{
    if disc(s, r) >= 0 {
        lemma_sqrt_floor_exists(disc(s, r));
        let sqd = sqrt_floor(disc(s, r));
        let b = coef_b(s, r);
        let babs = if b >= 0 { b } else { -b };
        assert(disc(s, r) >= babs * babs + 4) by (nonlinear_arith)
            requires
                coef_a(r) >= 1,
                coef_c(s, r) <= -1,
                disc(s, r) == coef_b(s, r) * coef_b(s, r) - 4 * (coef_a(r) * coef_c(s, r)),
                babs == (if coef_b(s, r) >= 0 { coef_b(s, r) } else { -coef_b(s, r) });
        if sqd < babs {
            assert((sqd + 1) * (sqd + 1) <= babs * babs) by (nonlinear_arith)
                requires 0 <= sqd + 1 <= babs;
            assert(false);
        }
        assert(-b - sqd <= 0);
        lemma_tdiv_bounds((-b - sqd) * SCALE, 2 * coef_a(r));
        assert(root0(s, r) <= 0);
        lemma_sphere_hit_chosen(s, r, t_min, t_max);
    }
}

/// Every reported record is `mk_rec` of an accepted root.
proof fn lemma_sphere_hit_chosen(s: Sphere, r: Ray, t_min: int, t_max: int)
    requires
        i64::MIN <= t_min <= i64::MAX,
        i64::MIN <= t_max <= i64::MAX,
    ensures
        spec_sphere_hit(s, r, t_min, t_max) matches Some(rec) ==> {
            &&& valid_root(s, r, rec.t as int, t_min, t_max)
            &&& rec == mk_rec(s, r, rec.t as int)
        },
{
    if spec_sphere_hit(s, r, t_min, t_max) is Some {
        let t = if valid_root(s, r, root0(s, r), t_min, t_max) {
            root0(s, r)
        } else {
            root1(s, r)
        };
        assert(valid_root(s, r, t, t_min, t_max));
        assert(mk_rec(s, r, t).t == t as i64);
        assert(spec_sphere_hit(s, r, t_min, t_max) == Some(mk_rec(s, r, t)));
    }
}

/// Narrowing the search window past the reported parameter loses
/// nothing and invents nothing: a retest over `(t_min, w1)` agrees
/// with the full test over `(t_min, w2)` wherever the full answer
/// lies below `w1`, and misses otherwise. This is what lets the
/// aggregate test tighten its window as it scans.
pub proof fn lemma_sphere_hit_window(s: Sphere, r: Ray, t_min: int, w1: int, w2: int)
    requires
        coef_a(r) > 0,
        w1 <= w2,
        i64::MIN <= t_min <= i64::MAX,
        i64::MIN <= w1 <= i64::MAX,
        i64::MIN <= w2 <= i64::MAX,
    ensures
        spec_sphere_hit(s, r, t_min, w2) is None ==> spec_sphere_hit(s, r, t_min, w1) is None,
        spec_sphere_hit(s, r, t_min, w2) matches Some(rec) && (rec.t as int) < w1
            ==> spec_sphere_hit(s, r, t_min, w1) == spec_sphere_hit(s, r, t_min, w2),
        spec_sphere_hit(s, r, t_min, w2) matches Some(rec) && (rec.t as int) >= w1
            ==> spec_sphere_hit(s, r, t_min, w1) is None,
{
    if disc(s, r) >= 0 {
        lemma_sqrt_floor_exists(disc(s, r));
        let sq = sqrt_floor(disc(s, r));
        let n0 = (-coef_b(s, r) - sq) * SCALE;
        let n1 = (-coef_b(s, r) + sq) * SCALE;
        assert(n0 <= n1) by (nonlinear_arith)
            requires sq >= 0 && n0 == (-coef_b(s, r) - sq) * SCALE && n1 == (-coef_b(s, r) + sq)
                * SCALE && SCALE == 65536;
        lemma_tdiv_mono(n0, n1, 2 * coef_a(r));
        assert(root0(s, r) <= root1(s, r));
        lemma_sphere_hit_chosen(s, r, t_min, w1);
        lemma_sphere_hit_chosen(s, r, t_min, w2);
    }
}

/// What holds of every record a sphere hands back: the point and the
/// oriented normal are in bounds, the normal is nonzero, the material
/// is the sphere's, and the parameter lies strictly in the interval.
pub proof fn lemma_sphere_hit_props(s: Sphere, r: Ray, t_min: int, t_max: int)
    requires
        i64::MIN <= t_min <= i64::MAX,
        i64::MIN <= t_max <= i64::MAX,
    ensures
        spec_sphere_hit(s, r, t_min, t_max) matches Some(rec) ==> {
            &&& rec.p.bounded(VMAX as int)
            &&& rec.normal.bounded(NMAX as int)
            &&& !rec.normal.is_zero()
            &&& rec.mat == s.mat
            &&& t_min < rec.t < t_max
        },
{
    if spec_sphere_hit(s, r, t_min, t_max) is Some {
        let t = if valid_root(s, r, root0(s, r), t_min, t_max) {
            root0(s, r)
        } else {
            root1(s, r)
        };
        assert(valid_root(s, r, t, t_min, t_max));
        assert(spec_sphere_hit(s, r, t_min, t_max) == Some(mk_rec(s, r, t)));
    }
}

impl Sphere {
    pub fn new(center: Point3, radius: i64, mat: usize) -> (s: Sphere)
        ensures
            s.center == center,
            s.radius == radius,
            s.mat == mat,
    {
        Sphere { center, radius, mat }
    }

    /// Try one root of the quadratic: `None` unless it is strictly
    /// inside the interval and its record is representable. The bound
    /// on `root` is the magnitude the root computation can reach and
    /// keeps the point arithmetic inside `i128`.
    fn check_root(&self, r: &Ray, root: i128, t_min: i64, t_max: i64) -> (res: Option<HitRecord>)
        requires
            sphere_wf(*self),
            ray_wf(*r),
            -0x8000_0000_0000_0000_0000i128 <= root <= 0x8000_0000_0000_0000_0000i128,
        ensures
            valid_root(*self, *r, root as int, t_min as int, t_max as int)
                ==> res == Some(mk_rec(*self, *r, root as int)),
            !valid_root(*self, *r, root as int, t_min as int, t_max as int) ==> res is None,
    {
        if !((t_min as i128) < root && root < (t_max as i128)) {
            return None;
        }
        let t: i64 = root as i64;
        proof {
            lemma_mul_abs_bound(root as int, r.dir.x as int, 0x8000_0000_0000_0000_0000, VMAX as int);
            lemma_mul_abs_bound(root as int, r.dir.y as int, 0x8000_0000_0000_0000_0000, VMAX as int);
            lemma_mul_abs_bound(root as int, r.dir.z as int, 0x8000_0000_0000_0000_0000, VMAX as int);
        }
        let px: i128 = (r.orig.x as i128) + tdiv_i128(root * (r.dir.x as i128), SCALE as i128);
        let py: i128 = (r.orig.y as i128) + tdiv_i128(root * (r.dir.y as i128), SCALE as i128);
        let pz: i128 = (r.orig.z as i128) + tdiv_i128(root * (r.dir.z as i128), SCALE as i128);
        if !(-VMAX as i128 <= px && px <= VMAX as i128 && -VMAX as i128 <= py && py <= VMAX as i128
            && -VMAX as i128 <= pz && pz <= VMAX as i128) {
            return None;
        }
        let nx: i128 = tdiv_i128((px - self.center.x as i128) * (SCALE as i128), self.radius as i128);
        let ny: i128 = tdiv_i128((py - self.center.y as i128) * (SCALE as i128), self.radius as i128);
        let nz: i128 = tdiv_i128((pz - self.center.z as i128) * (SCALE as i128), self.radius as i128);
        if !(-NMAX as i128 <= nx && nx <= NMAX as i128 && -NMAX as i128 <= ny && ny <= NMAX as i128
            && -NMAX as i128 <= nz && nz <= NMAX as i128) {
            return None;
        }
        if nx == 0 && ny == 0 && nz == 0 {
            return None;
        }
        let p = Vec3::new(px as i64, py as i64, pz as i64);
        let outward = Vec3::new(nx as i64, ny as i64, nz as i64);
        let mut rec = HitRecord { p, normal: outward, mat: self.mat, t, front_face: false };
        rec.set_face_normal(r, outward);
        Some(rec)
    }
}

impl Hit for Sphere {
    open spec fn hit_wf(&self) -> bool {
        sphere_wf(*self)
    }

    open spec fn spec_hit(&self, r: Ray, t_min: int, t_max: int) -> Option<HitRecord> {
        spec_sphere_hit(*self, r, t_min, t_max)
    }

    fn hit(&self, r: &Ray, t_min: i64, t_max: i64) -> (res: Option<HitRecord>)
    {
        let dx: i128 = r.dir.x as i128;
        let dy: i128 = r.dir.y as i128;
        let dz: i128 = r.dir.z as i128;
        let ox: i128 = (r.orig.x as i128) - (self.center.x as i128);
        let oy: i128 = (r.orig.y as i128) - (self.center.y as i128);
        let oz: i128 = (r.orig.z as i128) - (self.center.z as i128);
        proof {
            let v: int = VMAX as int;
            lemma_mul_abs_bound(dx as int, dx as int, v, v);
            lemma_mul_abs_bound(dy as int, dy as int, v, v);
            lemma_mul_abs_bound(dz as int, dz as int, v, v);
            lemma_mul_abs_bound(ox as int, dx as int, 2 * v, v);
            lemma_mul_abs_bound(oy as int, dy as int, 2 * v, v);
            lemma_mul_abs_bound(oz as int, dz as int, 2 * v, v);
            lemma_mul_abs_bound(ox as int, ox as int, 2 * v, 2 * v);
            lemma_mul_abs_bound(oy as int, oy as int, 2 * v, 2 * v);
            lemma_mul_abs_bound(oz as int, oz as int, 2 * v, 2 * v);
            lemma_mul_abs_bound(self.radius as int, self.radius as int, v, v);
        }
        let a: i128 = dx * dx + dy * dy + dz * dz;
        let b: i128 = 2 * (ox * dx + oy * dy + oz * dz);
        let c: i128 = ox * ox + oy * oy + oz * oz - (self.radius as i128) * (self.radius as i128);
        proof {
            lemma_mul_abs_bound(b as int, b as int, 0x10_0000_0000_0000, 0x10_0000_0000_0000);
            lemma_mul_abs_bound(a as int, c as int, 0x4_0000_0000_0000, 0x14_0000_0000_0000);
            lemma_sq_nonneg(dx as int);
            lemma_sq_nonneg(dy as int);
            lemma_sq_nonneg(dz as int);
            if r.dir.x != 0 {
                lemma_sq_pos(dx as int);
            } else if r.dir.y != 0 {
                lemma_sq_pos(dy as int);
            } else {
                lemma_sq_pos(dz as int);
            }
            assert(a >= 1);
        }
        let ac: i128 = a * c;
        let d: i128 = b * b - 4 * ac;
        proof {
            assert(a == coef_a(*r));
            assert(b == coef_b(*self, *r));
            assert(c == coef_c(*self, *r));
            assert(d == disc(*self, *r));
        }
        if d < 0 {
            return None;
        }
        let sq: i128 = isqrt_u128(d as u128) as i128;
        proof {
            lemma_sqrt_floor_unique(d as int, sq as int);
            assert(sq <= 0x40_0000_0000_0000) by (nonlinear_arith)
                requires
                    0 <= sq,
                    sq * sq <= d,
                    d <= 0x1000_0000_0000_0000_0000_0000_0000;
        }
        proof {
            lemma_mul_abs_bound((-b - sq) as int, SCALE as int, 0x80_0000_0000_0000, 0x1_0000);
            lemma_mul_abs_bound((-b + sq) as int, SCALE as int, 0x80_0000_0000_0000, 0x1_0000);
        }
        let t0: i128 = tdiv_i128((-b - sq) * (SCALE as i128), 2 * a);
        let t1: i128 = tdiv_i128((-b + sq) * (SCALE as i128), 2 * a);
        proof {
            assert(t0 == root0(*self, *r));
            assert(t1 == root1(*self, *r));
        }
        let near = self.check_root(r, t0, t_min, t_max);
        if near.is_some() {
            return near;
        }
        self.check_root(r, t1, t_min, t_max)
    }
}

} // verus!
