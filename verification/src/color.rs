//! Recursive color resolution: closest hit, material scatter, and the
//! sky-gradient fallback.

use vstd::prelude::*;
use vstd::arithmetic::div_mod::lemma_div_is_ordered;
use crate::fixed::{
    SCALE, tdiv, sqrt_floor, tdiv_i128, lemma_tdiv_shrinks, lemma_mul_abs_bound, lemma_div_sum_le,
};
use crate::vec::{Vec3, Color, VMAX, lemma_sq_pos, lemma_sq_nonneg};
use crate::ray::{Ray, ray_wf};
use crate::hit::Hit;
use crate::scatter::Lambertian;
use crate::world::{World, world_wf, color_in_range, spec_world_hit, lemma_world_loop_props, hit_rec_props};

verus! {

/// The parameter floor of every primary or scattered ray: a little
/// above zero (about a thousandth of a whole) to suppress immediate
/// self-intersection of a scattered ray with its own surface.
pub const T_EPSILON: i64 = 66;

/// The open upper end of the search interval: no finite scene point
/// lies beyond it, so it stands in for infinity.
pub const T_LIMIT: i64 = 0x7fff_ffff_ffff_ffff;

/// No light at all.
pub open spec fn black() -> Color {
    Vec3 { x: 0, y: 0, z: 0 }
}

/// The sky color straight up, one whole of blue-tinted light.
pub open spec fn zenith() -> Color {
    Vec3 { x: 32768, y: 45875, z: 65536 }
}

/// The sky color at the horizon: plain white.
pub open spec fn horizon() -> Color {
    Vec3 { x: SCALE, y: SCALE, z: SCALE }
}

/// Vertical component of the unit direction of `dir`.
pub open spec fn unit_y_of(dir: Vec3) -> int {
    tdiv(dir.y * SCALE, sqrt_floor(dir.dot_s(dir)))
}

/// Gradient parameter: the vertical component mapped from `[-1, 1]`
/// to `[0, 1]`.
pub open spec fn bg_t(dir: Vec3) -> int {
    tdiv(unit_y_of(dir) + SCALE, 2)
}

/// One component of the linear interpolation `(1 - t) * a + t * b`.
pub open spec fn lerp_comp(a: int, b: int, t: int) -> int {
    tdiv((SCALE - t) * a, SCALE as int) + tdiv(t * b, SCALE as int)
}

/// The background gradient sampled along `dir`: white at the horizon
/// blending to the zenith color straight up.
pub open spec fn spec_background(dir: Vec3) -> Color {
    Vec3 {
        x: lerp_comp(horizon().x as int, zenith().x as int, bg_t(dir)) as i64,
        y: lerp_comp(horizon().y as int, zenith().y as int, bg_t(dir)) as i64,
        z: lerp_comp(horizon().z as int, zenith().z as int, bg_t(dir)) as i64,
    }
}

/// One interpolated color component.
fn lerp(a: i64, b: i64, t: i64) -> (r: i64)
    requires
        0 <= a <= SCALE,
        0 <= b <= SCALE,
        0 <= t <= SCALE,
    ensures
        r == lerp_comp(a as int, b as int, t as int),
        0 <= r <= SCALE,
{
    proof {
        lemma_mul_abs_bound((SCALE - t) as int, a as int, SCALE as int, SCALE as int);
        lemma_mul_abs_bound(t as int, b as int, SCALE as int, SCALE as int);
        assert((SCALE - t) * a >= 0 && (SCALE - t) * a <= (SCALE - t) * SCALE)
            by (nonlinear_arith)
            requires 0 <= a <= SCALE && 0 <= SCALE - t;
        assert(t * b >= 0 && t * b <= t * SCALE) by (nonlinear_arith)
            requires 0 <= b <= SCALE && 0 <= t;
        lemma_div_sum_le((SCALE - t) * a, t * b, SCALE as int);
        lemma_div_is_ordered((SCALE - t) * a + t * b, SCALE as int * SCALE as int, SCALE as int);
        lemma_tdiv_shrinks((SCALE - t) * a, SCALE as int, SCALE as int);
        lemma_tdiv_shrinks(t * b, SCALE as int, SCALE as int);
    }
    let t1: i64 = tdiv_i128(((SCALE - t) as i128) * (a as i128), SCALE as i128) as i64;
    let t2: i64 = tdiv_i128((t as i128) * (b as i128), SCALE as i128) as i64;
    t1 + t2
}

/// The background gradient along `dir`.
pub fn background(dir: Vec3) -> (c: Color)
    requires
        dir.bounded(VMAX as int),
        !dir.is_zero(),
    ensures
        c == spec_background(dir),
        color_in_range(c),
{
    proof {
        lemma_sq_nonneg(dir.x as int);
        lemma_sq_nonneg(dir.y as int);
        lemma_sq_nonneg(dir.z as int);
        if dir.x != 0 {
            lemma_sq_pos(dir.x as int);
        } else if dir.y != 0 {
            lemma_sq_pos(dir.y as int);
        } else {
            lemma_sq_pos(dir.z as int);
        }
    }
    let u = dir.normalized();
    let t: i64 = tdiv_i128((u.y() as i128) + (SCALE as i128), 2) as i64;
    proof {
        lemma_tdiv_shrinks(u.y as int + SCALE as int, 2, SCALE as int);
    }
    Vec3::new(lerp(SCALE, 32768, t), lerp(SCALE, 45875, t), lerp(SCALE, SCALE, t))
}

/// Component-wise color product, as a spec value.
pub open spec fn spec_attenuate(a: Color, b: Color) -> Color {
    Vec3 {
        x: tdiv(a.x * b.x, SCALE as int) as i64,
        y: tdiv(a.y * b.y, SCALE as int) as i64,
        z: tdiv(a.z * b.z, SCALE as int) as i64,
    }
}

/// Component-wise color product: attenuation of bounced light.
pub fn attenuate(a: Color, b: Color) -> (c: Color)
    requires
        color_in_range(a),
        color_in_range(b),
    ensures
        c == spec_attenuate(a, b),
        c.x == tdiv(a.x * b.x, SCALE as int),
        c.y == tdiv(a.y * b.y, SCALE as int),
        c.z == tdiv(a.z * b.z, SCALE as int),
        color_in_range(c),
{
    proof {
        lemma_mul_abs_bound(a.x as int, b.x as int, SCALE as int, SCALE as int);
        lemma_mul_abs_bound(a.y as int, b.y as int, SCALE as int, SCALE as int);
        lemma_mul_abs_bound(a.z as int, b.z as int, SCALE as int, SCALE as int);
        assert(a.x * b.x >= 0 && a.y * b.y >= 0 && a.z * b.z >= 0) by (nonlinear_arith)
            requires a.x >= 0 && a.y >= 0 && a.z >= 0 && b.x >= 0 && b.y >= 0 && b.z >= 0;
        lemma_tdiv_shrinks(a.x * b.x, SCALE as int, SCALE as int);
        lemma_tdiv_shrinks(a.y * b.y, SCALE as int, SCALE as int);
        lemma_tdiv_shrinks(a.z * b.z, SCALE as int, SCALE as int);
    }
    Vec3::new(
        tdiv_i128((a.x as i128) * (b.x as i128), SCALE as i128) as i64,
        tdiv_i128((a.y as i128) * (b.y as i128), SCALE as i128) as i64,
        tdiv_i128((a.z as i128) * (b.z as i128), SCALE as i128) as i64,
    )
}

/// Resolve the color carried back along `r`: black once the bounce
/// budget is spent; otherwise the closest hit scatters and attenuates
/// the recursively resolved color, and a miss samples the sky
/// gradient.
pub fn ray_color(r: &Ray, world: &World, depth_remaining: u32) -> (c: Color)
    requires
        ray_wf(*r),
        world_wf(world),
    ensures
        depth_remaining == 0 ==> c == black(),
        depth_remaining > 0 && spec_world_hit(
            world.objects@,
            *r,
            T_EPSILON as int,
            T_LIMIT as int,
        ) is None ==> c == spec_background(r.dir),
        depth_remaining > 0 ==> (spec_world_hit(
            world.objects@,
            *r,
            T_EPSILON as int,
            T_LIMIT as int,
        ) matches Some(rec) ==> (exists|bounced: Color|
            color_in_range(bounced) && c == spec_attenuate(
                world.materials@[rec.mat as int].albedo,
                bounced,
            ))),
        color_in_range(c),
    decreases depth_remaining,
{
    if depth_remaining == 0 {
        return Vec3::new(0, 0, 0);
    }
    let res = world.hit(r, T_EPSILON, T_LIMIT);
    match res {
        Some(rec) => {
            proof {
                lemma_world_loop_props(
                    world.objects@,
                    *r,
                    T_EPSILON as int,
                    None,
                    T_LIMIT as int,
                    0,
                );
                assert(hit_rec_props(world.objects@, rec));
                let j = choose|j: int|
                    0 <= j < world.objects@.len() && rec.mat == world.objects@[j].mat;
                assert(world.objects@[j].mat < world.materials@.len());
            }
            let m: Lambertian = world.materials[rec.mat];
            match m.scatter(r, &rec) {
                Some((attenuation, scattered)) => {
                    let bounced = ray_color(&scattered, world, depth_remaining - 1);
                    let out = attenuate(attenuation, bounced);
                    proof {
                        assert(color_in_range(bounced) && out == spec_attenuate(
                            world.materials@[rec.mat as int].albedo,
                            bounced,
                        ));
                    }
                    out
                },
                None => Vec3::new(0, 0, 0),
            }
        },
        None => background(r.direction()),
    }
}

} // verus!
