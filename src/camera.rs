//! A thin-lens camera mapping screen coordinates to rays.
use vstd::prelude::*;
use rand::rngs::StdRng;
use crate::fixed::{div_spec, fdiv, fmul, in_range, mul_spec, FX};
use crate::random::{in_unit_disk, random_in_unit_disk};
use crate::ray::Ray;
use crate::vec3::{vcross, vdiv, vminus, vnormalized, vplus, vscale, Point3, Vec3};

verus! {

pub struct Camera {
    pub origin: Point3,
    pub lower_left_corner: Point3,
    pub horizontal: Vec3,
    pub vertical: Vec3,
    pub cu: Vec3,
    pub cv: Vec3,
    pub lens_radius: i64,
}

/// The camera derived from its placement: `viewport_height` is
/// `2 tan(vfov / 2)` for the vertical field of view `vfov`.
pub open spec fn camera_spec(
    lookfrom: Point3,
    lookat: Point3,
    vup: Vec3,
    viewport_height: int,
    aspect_ratio: int,
    aperture: int,
    focus_dist: int,
) -> Camera {
    let viewport_width = mul_spec(aspect_ratio, viewport_height);
    let cw = vnormalized(vminus(lookfrom, lookat));
    let cu = vnormalized(vcross(vup, cw));
    let cv = vcross(cw, cu);
    let h = vscale(cu, mul_spec(focus_dist, viewport_width));
    let v = vscale(cv, mul_spec(focus_dist, viewport_height));
    let llc = vminus(vminus(vminus(lookfrom, vdiv(h, 2 * FX)), vdiv(v, 2 * FX)), vscale(cw, focus_dist));
    Camera {
        origin: lookfrom,
        lower_left_corner: llc,
        horizontal: h,
        vertical: v,
        cu,
        cv,
        lens_radius: div_spec(aperture, 2 * FX) as i64,
    }
}

/// The ray through screen point `(s, t)` from the lens point that `rd`, a point
/// of the unit disk, selects.
pub open spec fn ray_spec(c: Camera, s: int, t: int, rd: Vec3) -> Ray {
    let rd = vscale(rd, c.lens_radius as int);
    let offset = vplus(vscale(c.cu, rd.x as int), vscale(c.cv, rd.y as int));
    Ray {
        orig: vplus(c.origin, offset),
        dir: vminus(
            vminus(vplus(vplus(c.lower_left_corner, vscale(c.horizontal, s)), vscale(c.vertical, t)), c.origin),
            offset,
        ),
    }
}

impl Camera {
    pub open spec fn wf(&self) -> bool {
        &&& self.origin.wf()
        &&& self.lower_left_corner.wf()
        &&& self.horizontal.wf()
        &&& self.vertical.wf()
        &&& self.cu.wf()
        &&& self.cv.wf()
        &&& in_range(self.lens_radius as int)
    }

    /// Places the camera at `lookfrom` looking toward `lookat`, with `vup` fixing
    /// its roll, focused at `focus_dist`; an `aperture` of zero makes a pinhole.
    /// The field of view comes as `viewport_height`, which is `2 tan(vfov / 2)`
    /// for a vertical field of view `vfov`; `lookfrom` must differ from `lookat`
    /// and `vup` must not lie along the line of sight for the basis to exist.
    pub fn new(
        lookfrom: Point3,
        lookat: Point3,
        vup: Vec3,
        viewport_height: i64,
        aspect_ratio: i64,
        aperture: i64,
        focus_dist: i64,
    ) -> (c: Camera)
        requires
            lookfrom.wf(),
            lookat.wf(),
            vup.wf(),
            in_range(viewport_height as int),
            in_range(aspect_ratio as int),
            in_range(aperture as int),
            in_range(focus_dist as int),
        ensures
            c == camera_spec(
                lookfrom,
                lookat,
                vup,
                viewport_height as int,
                aspect_ratio as int,
                aperture as int,
                focus_dist as int,
            ),
            c.wf(),
    {
        let viewport_width = fmul(aspect_ratio, viewport_height);
        let cw = lookfrom.minus(lookat).normalized();
        let cu = vup.cross(cw).normalized();
        let cv = cw.cross(cu);
        let h = cu.scale(fmul(focus_dist, viewport_width));
        let v = cv.scale(fmul(focus_dist, viewport_height));
        let llc = lookfrom.minus(h.div(2 * FX)).minus(v.div(2 * FX)).minus(cw.scale(focus_dist));
        Camera {
            origin: lookfrom,
            lower_left_corner: llc,
            horizontal: h,
            vertical: v,
            cu,
            cv,
            lens_radius: fdiv(aperture, 2 * FX),
        }
    }

    /// The ray through screen point `(s, t)` from the lens point `rd`.
    pub fn get_ray_with(&self, s: i64, t: i64, rd: Vec3) -> (r: Ray)
        requires
            self.wf(),
            in_range(s as int),
            in_range(t as int),
            rd.wf(),
        ensures
            r == ray_spec(*self, s as int, t as int, rd),
            r.wf(),
    {
        let rd = rd.scale(self.lens_radius);
        let offset = self.cu.scale(rd.x).plus(self.cv.scale(rd.y));
        Ray::new(
            self.origin.plus(offset),
            self.lower_left_corner.plus(self.horizontal.scale(s)).plus(self.vertical.scale(t)).minus(
                self.origin,
            ).minus(offset),
        )
    }

    /// The ray through screen point `(s, t)` from a random point of the lens.
    pub fn get_ray(&self, s: i64, t: i64, rng: &mut StdRng) -> (r: Ray)
        requires
            self.wf(),
            in_range(s as int),
            in_range(t as int),
        ensures
            exists|rd: Vec3| in_unit_disk(rd) && rd.wf() && r == ray_spec(*self, s as int, t as int, rd),
            r.wf(),
    {
        let rd = random_in_unit_disk(rng);
        self.get_ray_with(s, t, rd)
    }
}

} // verus!
