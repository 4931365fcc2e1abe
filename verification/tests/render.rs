// Scenario tests for the fixed-point renderer. One whole is 65536
// fixed-point units.

use raytrace::vec::Vec3;
use raytrace::ray::Ray;
use raytrace::hit::{Hit, HitRecord};
use raytrace::sphere::Sphere;
use raytrace::scatter::{Lambertian, random_unit_vector};
use raytrace::world::World;
use raytrace::color::{ray_color, attenuate, background};
use raytrace::camera::Camera;

const S: i64 = 65536;

fn gray() -> Vec3 {
    Vec3::new(32768, 32768, 32768)
}

fn one_sphere_world(center: Vec3, radius: i64) -> World {
    let mut w = World::new();
    let m = w.add_material(Lambertian::new(gray()));
    w.add_sphere(Sphere::new(center, radius, m));
    w
}

#[test]
fn vec_index() {
    let v = Vec3::new(65536, 131072, 196608);
    assert_eq!(v.get(0), 65536);
}

#[test]
fn vec_set_index() {
    let mut v = Vec3::new(65536, 131072, 196608);
    v.set(0, 131072);
    assert_eq!(v.get(0), 131072);
}

#[test]
fn vec_accessors_and_sums() {
    let v = Vec3::new(1, 2, 3);
    assert_eq!((v.x(), v.y(), v.z()), (1, 2, 3));
    let w = v.add(Vec3::new(10, 20, 30));
    assert_eq!((w.x(), w.y(), w.z()), (11, 22, 33));
    let d = w.sub(v);
    assert_eq!((d.x(), d.y(), d.z()), (10, 20, 30));
    let n = v.neg();
    assert_eq!((n.x(), n.y(), n.z()), (-1, -2, -3));
}

#[test]
fn vec_dot_raw_scale() {
    let a = Vec3::new(S, 2 * S, 3 * S);
    let b = Vec3::new(4 * S, 5 * S, 6 * S);
    // (4 + 10 + 18) wholes squared, in raw units of S * S
    assert_eq!(a.dot(b), 32 * S * S);
}

#[test]
fn vec_cross_axes() {
    let x = Vec3::new(S, 0, 0);
    let y = Vec3::new(0, S, 0);
    let z = x.cross(y);
    assert_eq!((z.x(), z.y(), z.z()), (0, 0, S));
}

#[test]
fn vec_length_pythagorean() {
    let v = Vec3::new(3 * S, 4 * S, 0);
    assert_eq!(v.length(), 5 * S);
}

#[test]
fn vec_normalized_truncates() {
    let v = Vec3::new(3 * S, 4 * S, 0);
    let u = v.normalized();
    // 3/5 and 4/5 wholes, truncated toward zero
    assert_eq!((u.x(), u.y(), u.z()), (39321, 52428, 0));
}

#[test]
fn vec_scale_half() {
    let v = Vec3::new(S, -S, 2 * S);
    let h = v.scale(32768);
    assert_eq!((h.x(), h.y(), h.z()), (32768, -32768, S));
}

#[test]
fn vec_div_by_two_wholes() {
    let v = Vec3::new(S, -S, 3 * S);
    let h = v.div(2 * S);
    assert_eq!((h.x(), h.y(), h.z()), (32768, -32768, 98304));
}

#[test]
fn ray_at_midpoint() {
    let r = Ray::new(Vec3::new(0, 0, 0), Vec3::new(0, 0, -S));
    let p = r.at(32768);
    assert_eq!((p.x(), p.y(), p.z()), (0, 0, -32768));
}

#[test]
fn sphere_hit_from_outside() {
    // Sphere at (0, 0, -1) with radius 1/2, ray from the origin
    // straight at it: hit at t = 1/2 on the near surface, entering.
    let s = Sphere::new(Vec3::new(0, 0, -S), 32768, 0);
    let r = Ray::new(Vec3::new(0, 0, 0), Vec3::new(0, 0, -S));
    let rec = s.hit(&r, 0, i64::MAX).expect("must hit");
    assert_eq!(rec.t, 32768);
    assert_eq!((rec.p.x(), rec.p.y(), rec.p.z()), (0, 0, -32768));
    assert!(rec.front_face);
    assert_eq!((rec.normal.x(), rec.normal.y(), rec.normal.z()), (0, 0, S));
}

#[test]
fn sphere_miss_pointing_away() {
    let s = Sphere::new(Vec3::new(0, 0, -S), 32768, 0);
    let r = Ray::new(Vec3::new(0, 0, 0), Vec3::new(0, 0, S));
    assert!(s.hit(&r, 0, i64::MAX).is_none());
}

#[test]
fn sphere_hit_from_inside_flips_normal() {
    // Ray starting at the center: only the far crossing is ahead, so
    // the record is back-facing and the normal is flipped inward.
    let s = Sphere::new(Vec3::new(0, 0, 0), S, 0);
    let r = Ray::new(Vec3::new(0, 0, 0), Vec3::new(0, 0, -S));
    let rec = s.hit(&r, 0, i64::MAX).expect("must hit");
    assert_eq!(rec.t, S);
    assert!(!rec.front_face);
    assert_eq!((rec.normal.x(), rec.normal.y(), rec.normal.z()), (0, 0, S));
}

#[test]
fn world_picks_globally_closest() {
    let mut w = World::new();
    let m = w.add_material(Lambertian::new(gray()));
    let near = Sphere::new(Vec3::new(0, 0, -2 * S), 32768, m);
    let far = Sphere::new(Vec3::new(0, 0, -4 * S), 32768, m);
    let r = Ray::new(Vec3::new(0, 0, 0), Vec3::new(0, 0, -S));

    // each member alone
    let t_near = near.hit(&r, 0, i64::MAX).expect("near hits").t;
    let t_far = far.hit(&r, 0, i64::MAX).expect("far hits").t;
    assert_eq!(t_near, 98304);
    assert_eq!(t_far, 229376);

    // aggregate, in both insertion orders, equals the brute-force minimum
    w.add_sphere(near);
    w.add_sphere(far);
    assert_eq!(w.hit(&r, 0, i64::MAX).expect("world hits").t, 98304);

    let mut w2 = World::new();
    let m2 = w2.add_material(Lambertian::new(gray()));
    w2.add_sphere(Sphere::new(Vec3::new(0, 0, -4 * S), 32768, m2));
    w2.add_sphere(Sphere::new(Vec3::new(0, 0, -2 * S), 32768, m2));
    assert_eq!(w2.hit(&r, 0, i64::MAX).expect("world hits").t, 98304);
}

#[test]
fn world_interval_is_strict() {
    let mut w = World::new();
    let m = w.add_material(Lambertian::new(gray()));
    w.add_sphere(Sphere::new(Vec3::new(0, 0, -2 * S), 32768, m));
    let r = Ray::new(Vec3::new(0, 0, 0), Vec3::new(0, 0, -S));
    // the near crossing sits at exactly 98304: an upper bound equal to
    // it excludes it, and the far crossing at 163840 too
    assert!(w.hit(&r, 0, 98304).is_none());
    assert_eq!(w.hit(&r, 0, 98305).expect("in window").t, 98304);
}

#[test]
fn sphere_far_root_when_near_is_below_window() {
    // pushing t_min past the near crossing selects the far, exiting
    // crossing, which flips the stored normal
    let s = Sphere::new(Vec3::new(0, 0, -2 * S), 32768, 0);
    let r = Ray::new(Vec3::new(0, 0, 0), Vec3::new(0, 0, -S));
    let rec = s.hit(&r, 100000, i64::MAX).expect("far crossing in window");
    assert_eq!(rec.t, 163840);
    assert!(!rec.front_face);
    assert_eq!((rec.normal.x(), rec.normal.y(), rec.normal.z()), (0, 0, S));
}

#[test]
fn empty_world_never_hits() {
    let w = World::new();
    let r = Ray::new(Vec3::new(0, 0, 0), Vec3::new(0, 0, -S));
    assert!(w.hit(&r, 0, i64::MAX).is_none());
    assert!(w.hit(&r, -S, 10 * S).is_none());
}

#[test]
fn lambertian_always_scatters_from_hit_point() {
    let lam = Lambertian::new(gray());
    let rec = HitRecord {
        p: Vec3::new(1, 2, 3),
        normal: Vec3::new(0, 0, S),
        mat: 0,
        t: 100,
        front_face: true,
    };
    let r_in = Ray::new(Vec3::new(0, 0, 0), Vec3::new(0, 0, -S));
    for _ in 0..64 {
        let (att, scattered) = lam.scatter(&r_in, &rec).expect("never absorbs");
        assert_eq!((att.x(), att.y(), att.z()), (32768, 32768, 32768));
        assert_eq!(
            (scattered.orig.x(), scattered.orig.y(), scattered.orig.z()),
            (1, 2, 3)
        );
        let d = scattered.dir;
        assert!(!(d.x() == 0 && d.y() == 0 && d.z() == 0));
    }
}

#[test]
fn random_unit_vector_in_bounds() {
    for _ in 0..256 {
        let u = random_unit_vector();
        assert!(-S <= u.x() && u.x() <= S);
        assert!(-S <= u.y() && u.y() <= S);
        assert!(-S <= u.z() && u.z() <= S);
    }
}

#[test]
fn resolve_color_zero_depth_is_black() {
    let w = one_sphere_world(Vec3::new(0, 0, -S), 32768);
    let r = Ray::new(Vec3::new(0, 0, 0), Vec3::new(0, 0, -S));
    let c = ray_color(&r, &w, 0);
    assert_eq!((c.x(), c.y(), c.z()), (0, 0, 0));
}

#[test]
fn resolve_color_straight_up_is_zenith() {
    // A vertical ray misses the scene; its unit direction has a
    // vertical component of exactly one whole, so the gradient lands
    // exactly on the zenith color.
    let w = one_sphere_world(Vec3::new(0, 0, -S), 32768);
    let r = Ray::new(Vec3::new(0, 0, 0), Vec3::new(0, S, 0));
    let c = ray_color(&r, &w, 5);
    assert_eq!((c.x(), c.y(), c.z()), (32768, 45875, 65536));
}

#[test]
fn background_gradient_endpoint() {
    let c = background(Vec3::new(0, S, 0));
    assert_eq!((c.x(), c.y(), c.z()), (32768, 45875, 65536));
}

#[test]
fn attenuate_componentwise() {
    let c = attenuate(Vec3::new(32768, S, 0), Vec3::new(S, 32768, S));
    assert_eq!((c.x(), c.y(), c.z()), (32768, 32768, 0));
}

#[test]
fn set_face_normal_orients_against_ray() {
    let outward = Vec3::new(0, 0, S);
    let mut rec = HitRecord {
        p: Vec3::new(0, 0, 0),
        normal: Vec3::new(0, 0, 0),
        mat: 0,
        t: 0,
        front_face: false,
    };
    let entering = Ray::new(Vec3::new(0, 0, 0), Vec3::new(0, 0, -S));
    rec.set_face_normal(&entering, outward);
    assert!(rec.front_face);
    assert_eq!((rec.normal.x(), rec.normal.y(), rec.normal.z()), (0, 0, S));

    let exiting = Ray::new(Vec3::new(0, 0, 0), Vec3::new(0, 0, S));
    rec.set_face_normal(&exiting, outward);
    assert!(!rec.front_face);
    assert_eq!((rec.normal.x(), rec.normal.y(), rec.normal.z()), (0, 0, -S));
}

#[test]
fn format_color_full_white() {
    let c = Vec3::new(S, S, S);
    assert_eq!(c.format_color(1), "255 255 255");
}

#[test]
fn format_color_averages_and_clamps() {
    // summed over 3 samples: 1.0 clamps to 255, negative clamps to 0,
    // a sixth of a whole maps to 42
    let c = Vec3::new(3 * S, -S, 32768);
    assert_eq!(c.format_color(3), "255 0 42");
}

#[test]
fn lambertian_new_stores_albedo() {
    let l = Lambertian::new(Vec3::new(1, 2, 3));
    assert_eq!((l.albedo.x(), l.albedo.y(), l.albedo.z()), (1, 2, 3));
}

#[test]
fn camera_corner_rays() {
    let cam = Camera::new();
    let r00 = cam.get_ray(0, 0);
    assert_eq!((r00.orig.x(), r00.orig.y(), r00.orig.z()), (0, 0, 0));
    assert_eq!((r00.dir.x(), r00.dir.y(), r00.dir.z()), (-116508, -65536, -65536));
    let r11 = cam.get_ray(S, S);
    assert_eq!((r11.dir.x(), r11.dir.y(), r11.dir.z()), (116508, 65536, -65536));
}
