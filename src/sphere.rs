//! Spheres and their intersection with rays.
use vstd::prelude::*;
use crate::fixed::{clamp, clamp_wide, div_spec, fdiv, fmul, fsqrt, in_range, mul_spec, sqrt_spec};
use crate::hit::{Hit, HitRecord};
use crate::material::Material;
use crate::ray::{ray_at, Ray};
use crate::vec3::{lemma_dot_neg, vdiv, vdot, vminus, vneg, Point3, Vec3};

verus! {

/// A sphere; a negative radius turns its normals inward, which makes a hollow shell.
#[derive(Clone, Copy, Debug, PartialEq, Eq, Structural)]
pub struct Sphere {
    pub centre: Point3,
    pub radius: i64,
    pub mat: Material,
}

/// The coefficients `(a, half_b, c)` of `a t^2 + 2 half_b t + c = 0`, whose roots
/// are the parameters at which `r` meets the sphere.
pub open spec fn quadratic(s: Sphere, r: Ray) -> (int, int, int) {
    let x = vminus(r.orig, s.centre);
    (
        vdot(r.dir, r.dir),
        vdot(r.dir, x),
        clamp(vdot(x, x) - mul_spec(s.radius as int, s.radius as int)),
    )
}

pub open spec fn discriminant(s: Sphere, r: Ray) -> int {
    let (a, half_b, c) = quadratic(s, r);
    clamp(mul_spec(half_b, half_b) - mul_spec(a, c))
}

/// The smaller root; the caller knows the discriminant is not negative.
pub open spec fn near_root(s: Sphere, r: Ray) -> int {
    let (a, half_b, c) = quadratic(s, r);
    div_spec(clamp(-half_b - sqrt_spec(discriminant(s, r))), a)
}

pub open spec fn far_root(s: Sphere, r: Ray) -> int {
    let (a, half_b, c) = quadratic(s, r);
    div_spec(clamp(-half_b + sqrt_spec(discriminant(s, r))), a)
}

/// The outward normal at the point of `r` with parameter `t`.
pub open spec fn outward_at(s: Sphere, r: Ray, t: int) -> Vec3 {
    vdiv(vminus(ray_at(r, t), s.centre), s.radius as int)
}

/// The record of a hit of `s` at parameter `t`, oriented against the ray.
pub open spec fn record_spec(s: Sphere, r: Ray, t: int) -> HitRecord {
    let outward = outward_at(s, r, t);
    let front = vdot(r.dir, outward) < 0;
    HitRecord {
        p: ray_at(r, t),
        normal: if front { outward } else { vneg(outward) },
        mat: s.mat,
        t: t as i64,
        front_face: front,
    }
}

/// Whether the sphere meets the ray at all: the ray has a direction and the
/// discriminant is not negative.
pub open spec fn meets(s: Sphere, r: Ray) -> bool {
    quadratic(s, r).0 != 0 && discriminant(s, r) >= 0
}

/// The parameter of the nearest hit in `[t_min, t_max]`, if any.
pub open spec fn hit_param(s: Sphere, r: Ray, t_min: int, t_max: int) -> Option<int> {
    if !meets(s, r) {
        None
    } else if t_min <= near_root(s, r) <= t_max {
        Some(near_root(s, r))
    } else if t_min <= far_root(s, r) <= t_max {
        Some(far_root(s, r))
    } else {
        None
    }
}

pub open spec fn sphere_hit_spec(s: Sphere, r: Ray, t_min: int, t_max: int) -> Option<HitRecord> {
    match hit_param(s, r, t_min, t_max) {
        None => None,
        Some(t) => Some(record_spec(s, r, t)),
    }
}

impl Sphere {
    pub open spec fn wf(self) -> bool {
        self.centre.wf() && in_range(self.radius as int) && self.radius != 0 && self.mat.wf()
    }

    pub fn new(centre: Point3, radius: i64, mat: Material) -> (r: Sphere)
        ensures
            r == (Sphere { centre, radius, mat }),
    {
        Sphere { centre, radius, mat }
    }
}

impl Hit for Sphere {
    open spec fn hit_wf(&self) -> bool {
        self.wf()
    }

    open spec fn hit_spec(&self, r: Ray, t_min: int, t_max: int) -> Option<HitRecord> {
        sphere_hit_spec(*self, r, t_min, t_max)
    }

    /// The nearest intersection of `r` with the sphere whose parameter lies in
    /// `[t_min, t_max]`: the smaller root of the quadratic if it lies there,
    /// else the larger one, else none.
    fn hit(&self, r: &Ray, t_min: i64, t_max: i64) -> (res: Option<HitRecord>) {
        proof {
            lemma_sphere_front_face(*self, *r, t_min as int, t_max as int);
        }
        let x = r.origin().minus(self.centre);
        let a = r.direction().length_squared();
        let half_b = r.direction().dot(x);
        let xx = x.length_squared();
        let c = clamp_wide(xx as i128 - fmul(self.radius, self.radius) as i128);
        let discrim = clamp_wide(fmul(half_b, half_b) as i128 - fmul(a, c) as i128);
        if discrim < 0 || a == 0 {
            return None;
        }
        let sqrtd = fsqrt(discrim);
        let mut root = fdiv(clamp_wide(-(half_b as i128) - sqrtd as i128), a);
        if root < t_min || root > t_max {
            root = fdiv(clamp_wide(-(half_b as i128) + sqrtd as i128), a);
            if root < t_min || root > t_max {
                return None;
            }
        }
        let p = r.at(root);
        let outward_normal = p.minus(self.centre).div(self.radius);
        let mut rec = HitRecord {
            p,
            normal: Vec3::zero(),
            t: root,
            mat: self.mat,
            front_face: false,
        };
        rec.set_face_normal(r, outward_normal);
        Some(rec)
    }
}

/// A ray that passes the centre farther off than the radius, so that the
/// discriminant of its quadratic is negative, meets the sphere in no interval.
pub proof fn lemma_miss_outside(s: Sphere, r: Ray, t_min: int, t_max: int)
    requires
        discriminant(s, r) < 0,
    ensures
        sphere_hit_spec(s, r, t_min, t_max) is None,
{
}

/// The face rule holds of every hit of a sphere: the record is a front-face
/// hit exactly when the ray direction and the outward normal have a negative
/// dot product; the recorded normal never points along the ray, and points
/// against it on a front-face hit.
pub proof fn lemma_sphere_front_face(s: Sphere, r: Ray, t_min: int, t_max: int)
    requires
        s.wf(),
        r.wf(),
    ensures
        sphere_hit_spec(s, r, t_min, t_max) matches Some(rec) ==> {
            &&& rec.front_face == (vdot(r.dir, outward_at(s, r, rec.t as int)) < 0)
            &&& vdot(r.dir, rec.normal) <= 0
            &&& rec.front_face ==> vdot(r.dir, rec.normal) < 0
        },
{
    if let Some(t) = hit_param(s, r, t_min, t_max) {
        let outward = outward_at(s, r, t);
        lemma_dot_neg(r.dir, outward);
    }
}

} // verus!
