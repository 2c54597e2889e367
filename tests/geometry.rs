use raytrace::fixed::FX;
use raytrace::hit::{Hit, HitRecord, World};
use raytrace::material::{Lambertian, Material};
use raytrace::ray::Ray;
use raytrace::sphere::Sphere;
use raytrace::vec3::Vec3;

fn grey() -> Material {
    Material::Lambertian(Lambertian::new(Vec3::new(FX / 2, FX / 2, FX / 2)))
}

#[test]
fn ray_at_centre_hits_front_at_distance_minus_radius() {
    let s = Sphere::new(Vec3::new(0, 0, -3 * FX), FX, grey());
    let r = Ray::new(Vec3::zero(), Vec3::new(0, 0, -FX));
    let rec = s.hit(&r, 1, 100 * FX).expect("the ray is aimed at the centre");
    assert_eq!(rec.t, 2 * FX);
    assert!(rec.front_face);
    assert_eq!(rec.p, Vec3::new(0, 0, -2 * FX));
    assert_eq!(rec.normal, Vec3::new(0, 0, FX));
}

#[test]
fn ray_outside_bounding_distance_misses_for_any_interval() {
    let s = Sphere::new(Vec3::new(0, 0, -3 * FX), FX, grey());
    let r = Ray::new(Vec3::new(2 * FX, 0, 0), Vec3::new(0, 0, -FX));
    for (lo, hi) in [(0, FX), (1, 100 * FX), (-100 * FX, 100 * FX), (3 * FX, 4 * FX)] {
        assert!(s.hit(&r, lo, hi).is_none());
    }
}

#[test]
fn far_root_taken_when_near_root_out_of_range() {
    let s = Sphere::new(Vec3::new(0, 0, -3 * FX), FX, grey());
    let r = Ray::new(Vec3::zero(), Vec3::new(0, 0, -FX));
    let rec = s.hit(&r, 3 * FX, 100 * FX).expect("the far side is in range");
    assert_eq!(rec.t, 4 * FX);
    assert!(!rec.front_face);
    assert_eq!(rec.normal, Vec3::new(0, 0, FX));
    assert!(s.hit(&r, 5 * FX, 100 * FX).is_none());
}

#[test]
fn front_face_follows_outward_normal() {
    let s = Sphere::new(Vec3::new(0, 0, -3 * FX), FX, grey());
    let outside = Ray::new(Vec3::zero(), Vec3::new(0, 0, -FX));
    let rec = s.hit(&outside, 1, 100 * FX).unwrap();
    assert!(rec.front_face);
    assert!(rec.normal.dot(outside.dir) < 0);
    let inside = Ray::new(Vec3::new(0, 0, -3 * FX), Vec3::new(0, 0, -FX));
    let rec = s.hit(&inside, 1, 100 * FX).unwrap();
    assert!(!rec.front_face);
    assert!(rec.normal.dot(inside.dir) <= 0);
}

#[test]
fn negative_radius_turns_normal_inward() {
    let s = Sphere::new(Vec3::new(0, 0, -3 * FX), -FX, grey());
    let r = Ray::new(Vec3::zero(), Vec3::new(0, 0, -FX));
    let rec = s.hit(&r, 1, 100 * FX).unwrap();
    assert_eq!(rec.t, 2 * FX);
    assert!(!rec.front_face);
    assert_eq!(rec.normal, Vec3::new(0, 0, FX));
}

#[test]
fn set_face_normal_flips_for_back_face() {
    let mut rec = HitRecord { p: Vec3::zero(), normal: Vec3::zero(), mat: grey(), t: 0, front_face: true };
    let r = Ray::new(Vec3::zero(), Vec3::new(0, 0, -FX));
    rec.set_face_normal(&r, Vec3::new(0, 0, -FX));
    assert!(!rec.front_face);
    assert_eq!(rec.normal, Vec3::new(0, 0, FX));
    rec.set_face_normal(&r, Vec3::new(0, 0, FX));
    assert!(rec.front_face);
    assert_eq!(rec.normal, Vec3::new(0, 0, FX));
}

#[test]
fn world_reports_nearest_hit_whatever_the_order() {
    let near = Sphere::new(Vec3::new(0, 0, -3 * FX), FX, grey());
    let far = Sphere::new(Vec3::new(0, 0, -10 * FX), FX, grey());
    let r = Ray::new(Vec3::zero(), Vec3::new(0, 0, -FX));
    let mut w1 = World::new();
    w1.push(near);
    w1.push(far);
    let mut w2 = World::new();
    w2.push(far);
    w2.push(near);
    assert_eq!(w1.hit(&r, 1, 100 * FX).unwrap().t, 2 * FX);
    assert_eq!(w2.hit(&r, 1, 100 * FX).unwrap().t, 2 * FX);
    assert!(World::new().hit(&r, 1, 100 * FX).is_none());
}

#[test]
fn vector_formulas() {
    let a = Vec3::new(FX, 2 * FX, 3 * FX);
    let b = Vec3::new(4 * FX, -5 * FX, 6 * FX);
    assert_eq!(a.dot(b), 12 * FX);
    assert_eq!(a.cross(b), Vec3::new(27 * FX, 6 * FX, -13 * FX));
    assert_eq!(Vec3::new(3 * FX, 4 * FX, 0).length(), 5 * FX);
    assert_eq!(Vec3::new(0, 0, 7 * FX).normalized(), Vec3::new(0, 0, FX));
    assert_eq!(Vec3::zero().normalized(), Vec3::zero());
    assert_eq!(a.mul_elem(b), Vec3::new(4 * FX, -10 * FX, 18 * FX));
    assert!(Vec3::zero().near_zero());
    assert!(!Vec3::new(0, 1, 0).near_zero());
}

#[test]
fn vector_saturates_at_bound() {
    let big = Vec3::new(i64::MAX, i64::MIN, 0);
    assert_eq!(big.x, raytrace::fixed::LIM);
    assert_eq!(big.y, -raytrace::fixed::LIM);
    assert_eq!(big.plus(big).x, raytrace::fixed::LIM);
}

#[test]
fn reflect_keeps_length_and_negates_normal_part() {
    let d = Vec3::new(3 * FX, -4 * FX, 0);
    let n = Vec3::new(0, FX, 0);
    let r = d.reflect(n);
    assert_eq!(r, Vec3::new(3 * FX, 4 * FX, 0));
    assert_eq!(r.length(), d.length());
    assert_eq!(r.dot(n), -d.dot(n));
}

#[test]
fn refract_straight_through_at_normal_incidence() {
    let d = Vec3::new(0, 0, -FX);
    let n = Vec3::new(0, 0, FX);
    assert_eq!(d.refract(n, FX * 2 / 3), Vec3::new(0, 0, -FX));
}
