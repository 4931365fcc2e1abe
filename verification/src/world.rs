//! The scene: an ordered collection of spheres that is itself
//! intersectable, and the material table the spheres index into.

use vstd::prelude::*;
use crate::vec::VMAX;
use crate::ray::{Ray, ray_wf};
use crate::hit::{HitRecord, Hit};
use crate::sphere::{Sphere, sphere_wf, spec_sphere_hit, NMAX};
use crate::scatter::Lambertian;
use crate::fixed::SCALE;

verus! {

/// Albedos are colors with components in `[0, 1]` wholes.
pub open spec fn color_in_range(c: crate::vec::Color) -> bool {
    &&& 0 <= c.x <= SCALE
    &&& 0 <= c.y <= SCALE
    &&& 0 <= c.z <= SCALE
}

/// The scene, built before rendering and read-only afterwards. Each
/// sphere holds the index of its material, so many spheres (and every
/// hit record produced against them) share one material instance.
pub struct World {
    pub objects: Vec<Sphere>,
    pub materials: Vec<Lambertian>,
}

/// Every sphere is well formed and points at a material, and every
/// albedo is a color in range.
pub open spec fn world_wf(w: &World) -> bool {
    &&& forall|i: int|
        0 <= i < w.objects@.len() ==> sphere_wf(#[trigger] w.objects@[i])
            && w.objects@[i].mat < w.materials@.len()
    &&& forall|i: int| 0 <= i < w.materials@.len() ==> color_in_range(
        (#[trigger] w.materials@[i]).albedo,
    )
}

/// The remainder of the aggregate hit test from member `i` on, given
/// the best record so far and the shrunken search window.
pub open spec fn spec_world_loop(
    objs: Seq<Sphere>,
    r: Ray,
    t_min: int,
    best: Option<HitRecord>,
    closest: int,
    i: int,
) -> Option<HitRecord>
    decreases objs.len() - i,
{
    if i < 0 || i >= objs.len() {
        best
    } else {
        match spec_sphere_hit(objs[i], r, t_min, closest) {
            Some(rec) => spec_world_loop(objs, r, t_min, Some(rec), rec.t as int, i + 1),
            None => spec_world_loop(objs, r, t_min, best, closest, i + 1),
        }
    }
}

/// The aggregate hit test: every member is tried in order against a
/// window whose upper end is the closest hit so far.
pub open spec fn spec_world_hit(objs: Seq<Sphere>, r: Ray, t_min: int, t_max: int) -> Option<
    HitRecord,
> {
    spec_world_loop(objs, r, t_min, None, t_max, 0)
}

/// What holds of every record the aggregate test can hand back.
pub open spec fn hit_rec_props(objs: Seq<Sphere>, rec: HitRecord) -> bool {
    &&& rec.p.bounded(VMAX as int)
    &&& rec.normal.bounded(NMAX as int)
    &&& !rec.normal.is_zero()
    &&& exists|j: int| 0 <= j < objs.len() && rec.mat == (#[trigger] objs[j]).mat
}

/// Every record the aggregate loop produces satisfies `hit_rec_props`.
pub proof fn lemma_world_loop_props(
    objs: Seq<Sphere>,
    r: Ray,
    t_min: int,
    best: Option<HitRecord>,
    closest: int,
    i: int,
)
    requires
        i64::MIN <= t_min <= i64::MAX,
        i64::MIN <= closest <= i64::MAX,
        best matches Some(b) ==> hit_rec_props(objs, b),
    ensures
        spec_world_loop(objs, r, t_min, best, closest, i) matches Some(rec) ==> hit_rec_props(
            objs,
            rec,
        ),
    decreases objs.len() - i,
{
    if 0 <= i < objs.len() {
        match spec_sphere_hit(objs[i], r, t_min, closest) {
            Some(rec) => {
                crate::sphere::lemma_sphere_hit_props(objs[i], r, t_min, closest);
                assert(0 <= i < objs.len() && rec.mat == objs[i].mat);
                lemma_world_loop_props(objs, r, t_min, Some(rec), rec.t as int, i + 1);
            },
            None => {
                lemma_world_loop_props(objs, r, t_min, best, closest, i + 1);
            },
        }
    }
}

/// An empty scene never reports a hit, whatever the ray and interval.
pub proof fn lemma_empty_world_hit_none(objs: Seq<Sphere>, r: Ray, t_min: int, t_max: int)
    requires
        objs.len() == 0,
    ensures
        spec_world_hit(objs, r, t_min, t_max) is None,
{
}

/// The inductive heart of the aggregate's minimality: given a best
/// record so far that some scanned member reported over the full
/// interval and that no scanned member can beat, finishing the scan
/// yields the globally closest full-interval hit, or a miss when
/// every member misses.
proof fn lemma_world_loop_closest(
    objs: Seq<Sphere>,
    r: Ray,
    t_min: int,
    t_max: int,
    best: Option<HitRecord>,
    closest: int,
    i: int,
)
    requires
        crate::sphere::coef_a(r) > 0,
        0 <= i <= objs.len(),
        i64::MIN <= t_min <= i64::MAX,
        i64::MIN <= t_max <= i64::MAX,
        closest <= t_max,
        best is None ==> closest == t_max && (forall|j: int|
            0 <= j < i ==> spec_sphere_hit(#[trigger] objs[j], r, t_min, t_max) is None),
        best matches Some(b) ==> {
            &&& closest == b.t as int
            &&& t_min < b.t as int
            &&& (b.t as int) < t_max
            &&& (exists|j: int|
                0 <= j < i && spec_sphere_hit(#[trigger] objs[j], r, t_min, t_max) == Some(b))
            &&& (forall|j: int|
                0 <= j < i ==> (spec_sphere_hit(#[trigger] objs[j], r, t_min, t_max) matches Some(
                    rj,
                ) ==> b.t as int <= rj.t as int))
        },
    ensures
        spec_world_loop(objs, r, t_min, best, closest, i) matches Some(rec) ==> {
            &&& (exists|j: int|
                0 <= j < objs.len() && spec_sphere_hit(#[trigger] objs[j], r, t_min, t_max)
                    == Some(rec))
            &&& (forall|j: int|
                0 <= j < objs.len() ==> (spec_sphere_hit(#[trigger] objs[j], r, t_min, t_max)
                    matches Some(rj) ==> rec.t as int <= rj.t as int))
        },
        spec_world_loop(objs, r, t_min, best, closest, i) is None ==> (forall|j: int|
            0 <= j < objs.len() ==> spec_sphere_hit(#[trigger] objs[j], r, t_min, t_max) is None),
    decreases objs.len() - i,
{
    if i < objs.len() {
        let s = objs[i];
        crate::sphere::lemma_sphere_hit_window(s, r, t_min, closest, t_max);
        crate::sphere::lemma_sphere_hit_props(s, r, t_min, t_max);
        crate::sphere::lemma_sphere_hit_props(s, r, t_min, closest);
        match spec_sphere_hit(s, r, t_min, closest) {
            Some(rec) => {
                assert(spec_sphere_hit(s, r, t_min, t_max) == Some(rec));
                lemma_world_loop_closest(objs, r, t_min, t_max, Some(rec), rec.t as int, i + 1);
            },
            None => {
                lemma_world_loop_closest(objs, r, t_min, t_max, best, closest, i + 1);
            },
        }
    }
}

/// The aggregate test is equivalent to testing every member over the
/// full interval and keeping the closest hit: a reported record is
/// exactly some member's full-interval answer and no member reports a
/// smaller parameter; and the aggregate misses only when every member
/// misses.
pub proof fn lemma_world_hit_closest(objs: Seq<Sphere>, r: Ray, t_min: int, t_max: int)
    requires
        crate::sphere::coef_a(r) > 0,
        i64::MIN <= t_min <= i64::MAX,
        i64::MIN <= t_max <= i64::MAX,
    ensures
        spec_world_hit(objs, r, t_min, t_max) matches Some(rec) ==> {
            &&& (exists|j: int|
                0 <= j < objs.len() && spec_sphere_hit(#[trigger] objs[j], r, t_min, t_max)
                    == Some(rec))
            &&& (forall|j: int|
                0 <= j < objs.len() ==> (spec_sphere_hit(#[trigger] objs[j], r, t_min, t_max)
                    matches Some(rj) ==> rec.t as int <= rj.t as int))
        },
        spec_world_hit(objs, r, t_min, t_max) is None ==> (forall|j: int|
            0 <= j < objs.len() ==> spec_sphere_hit(#[trigger] objs[j], r, t_min, t_max) is None),
{
    lemma_world_loop_closest(objs, r, t_min, t_max, None, t_max, 0);
}

impl World {
    /// An empty scene.
    pub fn new() -> (w: World)
        ensures
            w.objects@.len() == 0,
            w.materials@.len() == 0,
    {
        World { objects: Vec::new(), materials: Vec::new() }
    }

    /// Register a material; spheres refer to it by the returned index.
    pub fn add_material(&mut self, m: Lambertian) -> (idx: usize)
        ensures
            final(self).materials@ == old(self).materials@.push(m),
            final(self).objects@ == old(self).objects@,
            idx == old(self).materials@.len(),
    {
        let idx = self.materials.len();
        self.materials.push(m);
        idx
    }

    /// Add a sphere to the scene.
    pub fn add_sphere(&mut self, s: Sphere)
        ensures
            final(self).objects@ == old(self).objects@.push(s),
            final(self).materials@ == old(self).materials@,
    {
        self.objects.push(s);
    }
}

impl Hit for World {
    open spec fn hit_wf(&self) -> bool {
        world_wf(self)
    }

    open spec fn spec_hit(&self, r: Ray, t_min: int, t_max: int) -> Option<HitRecord> {
        spec_world_hit(self.objects@, r, t_min, t_max)
    }

    fn hit(&self, r: &Ray, t_min: i64, t_max: i64) -> (res: Option<HitRecord>)
    {
        let mut best: Option<HitRecord> = None;
        let mut closest: i64 = t_max;
        let mut i: usize = 0;
        while i < self.objects.len()
            invariant
                i <= self.objects.len(),
                world_wf(self),
                ray_wf(*r),
                closest == (match best {
                    Some(b) => b.t as int,
                    None => t_max as int,
                }),
                spec_world_loop(self.objects@, *r, t_min as int, best, closest as int, i as int)
                    == spec_world_hit(self.objects@, *r, t_min as int, t_max as int),
            decreases self.objects.len() - i,
        {
            let s: &Sphere = &self.objects[i];
            match s.hit(r, t_min, closest) {
                Some(rec) => {
                    closest = rec.t;
                    best = Some(rec);
                },
                None => {},
            }
            i = i + 1;
        }
        best
    }
}

} // verus!
