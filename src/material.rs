//! Surface materials and how each one scatters light.
use vstd::prelude::*;
use crate::fixed::{
    clamp, clamp_wide, div_spec, fdiv, fmul, fsqrt, in_range, lemma_mul_square_nonneg, lemma_tdiv_bound, mul_spec,
    sqrt_spec, tdiv, tdiv_wide, FX, LIM,
};
use crate::hit::{first_block, HitRecord, OccludingHit, World};
use crate::light::{lighting_wf, Light, Lighting, SimpleLight};
use crate::random::{in_unit_ball, random_in_unit_sphere, random_unit};
use crate::ray::Ray;
use crate::sphere::{sphere_hit_spec, Sphere};
use crate::vec3::{
    vdot, vminus, vmul, vneg, vnormalized, vplus, vrefract, vreflect, vscale, vec_of, Color,
    Point3, Vec3,
};
use rand::rngs::StdRng;

verus! {

/// An ideal diffuse surface.
#[derive(Clone, Copy, Debug, PartialEq, Eq, Structural)]
pub struct Lambertian {
    pub albedo: Color,
    pub occlusion: i64,
}

impl Lambertian {
    pub fn new(albedo: Color) -> (r: Lambertian)
        ensures
            r.albedo == albedo,
            r.occlusion == 0,
    {
        Lambertian { albedo, occlusion: 0 }
    }
}

/// A specular surface whose reflections are blurred by `fuzz`.
#[derive(Clone, Copy, Debug, PartialEq, Eq, Structural)]
pub struct Metal {
    pub albedo: Color,
    pub fuzz: i64,
    pub occlusion: i64,
}

impl Metal {
    pub fn new(a: Color, f: i64) -> (r: Metal)
        ensures
            r.albedo == a,
            r.fuzz == f,
            r.occlusion == 0,
    {
        Metal { albedo: a, fuzz: f, occlusion: 0 }
    }
}

/// A clear refracting surface such as glass.
#[derive(Clone, Copy, Debug, PartialEq, Eq, Structural)]
pub struct Dielectric {
    pub ir: i64,
    pub occlusion: i64,
}

impl Dielectric {
    pub fn new(index_of_refraction: i64, occlusion: i64) -> (r: Dielectric)
        ensures
            r.ir == index_of_refraction,
            r.occlusion == occlusion,
    {
        Dielectric { ir: index_of_refraction, occlusion }
    }
}

/// A surface lit directly by the scene's lights with the Phong model, whose
/// outgoing ray is a diffuse bounce with probability `d_s`, else a specular one.
#[derive(Clone, Copy, Debug, PartialEq, Eq, Structural)]
pub struct PhongMat {
    pub a: i64,
    pub d: i64,
    pub s: i64,
    pub shine: i64,
    /// `shine / g`.
    pub b: i64,
    pub g: i32,
    pub albedo: Color,
    pub fuzz: i64,
    pub d_s: i64,
    pub occlusion: i64,
}

impl PhongMat {
    pub fn new(
        a: i64,
        d: i64,
        s: i64,
        shine: i64,
        g: i32,
        albedo: Color,
        fuzz: i64,
        d_s: i64,
        occlusion: i64,
    ) -> (r: PhongMat)
        requires
            in_range(shine as int),
            g > 0,
        ensures
            r == (PhongMat {
                a,
                d,
                s,
                shine,
                b: tdiv(shine as int, g as int) as i64,
                g,
                albedo,
                fuzz,
                d_s,
                occlusion,
            }),
    {
        proof {
            lemma_tdiv_bound(shine as int, g as int, LIM as int);
        }
        let b = tdiv_wide(shine as i128, g as i128) as i64;
        PhongMat { a, d, s, shine, b, g, albedo, fuzz, d_s, occlusion }
    }
}

/// The materials a surface can have.
#[derive(Clone, Copy, Debug, PartialEq, Eq, Structural)]
pub enum Material {
    Lambertian(Lambertian),
    Metal(Metal),
    Dielectric(Dielectric),
    Phong(PhongMat),
}

impl Material {
    /// Colors and scalars are within the saturation bound; a refractive index
    /// is positive and a Phong exponent is at least one.
    pub open spec fn wf(self) -> bool {
        match self {
            Material::Lambertian(m) => m.albedo.wf() && in_range(m.occlusion as int),
            Material::Metal(m) => m.albedo.wf() && in_range(m.fuzz as int) && in_range(
                m.occlusion as int,
            ),
            Material::Dielectric(m) => 0 < m.ir <= FX * FX && in_range(m.occlusion as int),
            Material::Phong(m) => m.albedo.wf() && in_range(m.d as int) && in_range(m.s as int)
                && in_range(m.b as int) && m.g > 0 && in_range(m.fuzz as int) && in_range(
                m.occlusion as int,
            ),
        }
    }

    /// The material's response to a ray that hit it, given the draws `coin` in
    /// `[0, 1)` and `sample` in the unit ball; `None` means the ray is absorbed.
    pub fn scatter_with(
        &self,
        vpos: Point3,
        lights: &Lighting,
        world: &World,
        r_in: &Ray,
        rec: &HitRecord,
        coin: i64,
        sample: Vec3,
    ) -> (res: Option<(Color, Ray)>)
        requires
            self.wf(),
            vpos.wf(),
            lighting_wf(lights@),
            world.wf(),
            r_in.wf(),
            rec.wf(),
            sample.wf(),
        ensures
            res == scatter_spec(*self, vpos, lights@, world.objects@, *r_in, *rec, coin as int, sample),
            res matches Some((c, ray)) ==> c.wf() && ray.wf(),
    {
        match self {
            Material::Lambertian(m) => Some(m.scatter_with(rec, sample)),
            Material::Metal(m) => m.scatter_with(r_in, rec, sample),
            Material::Dielectric(m) => Some(m.scatter_with(r_in, rec, coin)),
            Material::Phong(m) => m.illumination_with(vpos, lights, world, r_in, rec, coin, sample),
        }
    }
}

/// How a material responds to light: the ray it scatters, if any, with the
/// attenuation, and how much it blocks light in shadow tests.
pub trait Scatter {
    spec fn scatter_wf(&self) -> bool;

    /// The response given the draws `coin` in `[0, 1)` and `sample` in the unit ball.
    spec fn response(
        &self,
        vpos: Point3,
        lights: Seq<SimpleLight>,
        objs: Seq<Sphere>,
        r_in: Ray,
        rec: HitRecord,
        coin: int,
        sample: Vec3,
    ) -> Option<(Color, Ray)>;

    spec fn occlusion_spec(&self) -> int;

    /// The response to a ray that hit the material, with fresh draws from
    /// `rng`; `None` means the ray is absorbed.
    fn scatter(
        &self,
        vpos: Point3,
        lights: &Lighting,
        world: &World,
        r_in: &Ray,
        rec: &HitRecord,
        rng: &mut StdRng,
    ) -> (res: Option<(Color, Ray)>)
        requires
            self.scatter_wf(),
            vpos.wf(),
            lighting_wf(lights@),
            world.wf(),
            r_in.wf(),
            rec.wf(),
        ensures
            exists|coin: int, sample: Vec3|
                0 <= coin < FX && in_unit_ball(sample) && sample.wf() && res == #[trigger] self.response(
                    vpos,
                    lights@,
                    world.objects@,
                    *r_in,
                    *rec,
                    coin,
                    sample,
                ),
            res matches Some((c, ray)) ==> c.wf() && ray.wf(),
    ;

    /// How much the material blocks light in shadow tests; zero is opaque.
    fn occlusion(&self) -> (r: i64)
        ensures
            r == self.occlusion_spec(),
    ;
}

/// The smallest ray parameter that counts as a hit for a secondary ray, so that
/// a ray leaving a surface does not meet that surface again.
pub const T_MIN: i64 = 66;

/// `x` raised to the power `k`.
pub open spec fn pow_spec(x: int, k: nat) -> int
    decreases k,
{
    if k == 0 {
        FX as int
    } else {
        mul_spec(x, pow_spec(x, (k - 1) as nat))
    }
}

/// Fixed-point power.
pub fn fpow(x: i64, k: u32) -> (r: i64)
    requires
        in_range(x as int),
    ensures
        r == pow_spec(x as int, k as nat),
        in_range(r as int),
{
    let mut acc: i64 = FX;
    let mut i: u32 = 0;
    while i < k
        invariant
            0 <= i <= k,
            in_range(x as int),
            acc == pow_spec(x as int, i as nat),
            in_range(acc as int),
        decreases k - i,
    {
        acc = fmul(x, acc);
        i = i + 1;
    }
    acc
}

/// Whether the light at `lpos` shines on the point `p` with normal `n`: it is
/// not behind the surface, and no surface blocks the way to it.
pub open spec fn light_visible(p: Point3, n: Vec3, objs: Seq<Sphere>, lpos: Point3) -> bool {
    &&& vdot(n, vminus(lpos, p)) >= 0
    &&& !first_block(objs, shadow_ray(p, lpos), lpos, T_MIN as int, LIM as int)
}

/// The shadow ray from `p` toward the light at `lpos`.
pub open spec fn shadow_ray(p: Point3, lpos: Point3) -> Ray {
    Ray { orig: p, dir: vnormalized(vminus(lpos, p)) }
}

/// A light in front of the surface is hidden when the first surface in order
/// that the shadow ray meets is opaque and lies between the point and the
/// light, and shines when the shadow ray meets no surface at all.
pub proof fn lemma_shadow_test(p: Point3, n: Vec3, objs: Seq<Sphere>, lpos: Point3)
    requires
        vdot(n, vminus(lpos, p)) >= 0,
    ensures
        objs.len() > 0 && (sphere_hit_spec(objs[0], shadow_ray(p, lpos), T_MIN as int, LIM as int) matches Some(h)
            && h.mat.occlusion_spec() == 0 && vdot(shadow_ray(p, lpos).dir, vminus(lpos, h.p)) > 0)
            ==> !light_visible(p, n, objs, lpos),
        (forall|k: int| 0 <= k < objs.len() ==> (#[trigger] sphere_hit_spec(objs[k], shadow_ray(p, lpos), T_MIN as int, LIM as int)) is None)
            ==> light_visible(p, n, objs, lpos),
{
    lemma_no_hit_no_block(objs, shadow_ray(p, lpos), lpos);
}

proof fn lemma_no_hit_no_block(objs: Seq<Sphere>, r: Ray, lpos: Point3)
    ensures
        (forall|k: int| 0 <= k < objs.len() ==> (#[trigger] sphere_hit_spec(objs[k], r, T_MIN as int, LIM as int)) is None)
            ==> !first_block(objs, r, lpos, T_MIN as int, LIM as int),
    decreases objs.len(),
{
    if objs.len() > 0 {
        let rest = objs.drop_first();
        lemma_no_hit_no_block(rest, r, lpos);
        if forall|k: int| 0 <= k < objs.len() ==> (#[trigger] sphere_hit_spec(objs[k], r, T_MIN as int, LIM as int)) is None {
            assert(sphere_hit_spec(objs[0], r, T_MIN as int, LIM as int) is None);
            assert forall|k: int| 0 <= k < rest.len() implies (#[trigger] sphere_hit_spec(rest[k], r, T_MIN as int, LIM as int)) is None by {
                assert(rest[k] == objs[k + 1]);
                assert(sphere_hit_spec(objs[k + 1], r, T_MIN as int, LIM as int) is None);
            }
        }
    }
}

/// The diffuse bounce: along the normal plus a unit vector toward `sample`,
/// or along the normal alone where that sum vanishes.
pub open spec fn lambert_spec(albedo: Color, rec: HitRecord, sample: Vec3) -> (Color, Ray) {
    let d = vplus(rec.normal, vnormalized(sample));
    let dir = if d == vec_of(0, 0, 0) { rec.normal } else { d };
    (albedo, Ray { orig: rec.p, dir })
}

/// The specular bounce, blurred by `fuzz` times `sample`; absorbed when it
/// would go into the surface.
pub open spec fn metal_spec(albedo: Color, fuzz: int, r_in: Ray, rec: HitRecord, sample: Vec3) -> Option<(Color, Ray)> {
    let d = vnormalized(vreflect(r_in.dir, rec.normal));
    let scattered = Ray { orig: rec.p, dir: vplus(d, vscale(sample, fuzz)) };
    if vdot(scattered.dir, rec.normal) > 0 {
        Some((albedo, scattered))
    } else {
        None
    }
}

/// Schlick's approximation of the reflectance at a given cosine.
pub open spec fn reflectance_spec(cosine: int, ref_idx: int) -> int {
    let q = div_spec(FX - ref_idx, FX + ref_idx);
    let r0 = mul_spec(q, q);
    clamp(r0 + mul_spec(FX - r0, pow_spec(clamp(FX - cosine), 5)))
}

/// The refracted or reflected ray through a dielectric, where `coin` in `[0, 1)`
/// chooses reflection when it falls below the reflectance.
pub open spec fn dielectric_spec(ir: int, r_in: Ray, rec: HitRecord, coin: int) -> (Color, Ray) {
    let ratio = if rec.front_face { div_spec(FX as int, ir) } else { ir };
    let unit = vnormalized(r_in.dir);
    let c = vdot(vneg(unit), rec.normal);
    let cos_theta = if c < FX { c } else { FX as int };
    let s2 = clamp(FX - mul_spec(cos_theta, cos_theta));
    let sin_theta = if s2 >= 0 { sqrt_spec(s2) } else { 0 };
    let cannot_refract = mul_spec(ratio, sin_theta) > FX;
    let will_reflect = coin < reflectance_spec(cos_theta, ir);
    let dir = if cannot_refract || will_reflect {
        vreflect(unit, rec.normal)
    } else {
        vrefract(unit, rec.normal, ratio)
    };
    (vec_of(FX as int, FX as int, FX as int), Ray { orig: rec.p, dir })
}

/// The Phong terms of one light seen from direction `v` at `p` with normal `n`.
pub open spec fn phong_term(m: PhongMat, l: SimpleLight, p: Point3, n: Vec3, v: Vec3) -> Color {
    let ld = vnormalized(vminus(l.origin, p));
    let diffuse = vdot(ld, n);
    let refl = vnormalized(vreflect(ld, n));
    let lambda = clamp(FX - vdot(refl, v));
    let tmp = clamp(FX - mul_spec(m.b as int, lambda));
    let specular = if 0 < tmp { pow_spec(tmp, m.g as nat) } else { 0 };
    vplus(vscale(l.i_diff, mul_spec(m.d as int, diffuse)), vscale(l.i_spec, mul_spec(m.s as int, specular)))
}

/// The sum of the Phong terms of the visible lights among `lights`.
pub open spec fn illumination_spec(m: PhongMat, lights: Seq<SimpleLight>, objs: Seq<Sphere>, p: Point3, n: Vec3, v: Vec3) -> Color
    decreases lights.len(),
{
    if lights.len() == 0 {
        vec_of(0, 0, 0)
    } else {
        let acc = illumination_spec(m, lights.drop_last(), objs, p, n, v);
        if light_visible(p, n, objs, lights.last().origin) {
            vplus(acc, phong_term(m, lights.last(), p, n, v))
        } else {
            acc
        }
    }
}

/// The Phong material's response: direct illumination times the attenuation of
/// a diffuse bounce when `coin` falls below `d_s`, else of a specular bounce.
pub open spec fn phong_spec(m: PhongMat, vpos: Point3, lights: Seq<SimpleLight>, objs: Seq<Sphere>, r_in: Ray, rec: HitRecord, coin: int, sample: Vec3) -> Option<(Color, Ray)> {
    let illum = illumination_spec(m, lights, objs, rec.p, rec.normal, vnormalized(vminus(vpos, rec.p)));
    if coin < m.d_s {
        let (att, scattered) = lambert_spec(m.albedo, rec, sample);
        Some((vmul(illum, att), scattered))
    } else {
        match metal_spec(m.albedo, m.fuzz as int, r_in, rec, sample) {
            Some((att, scattered)) => Some((vmul(illum, att), scattered)),
            None => None,
        }
    }
}

/// What a material does with a ray that hit it, given the random draws `coin`
/// in `[0, 1)` and `sample` in the unit ball.
pub open spec fn scatter_spec(m: Material, vpos: Point3, lights: Seq<SimpleLight>, objs: Seq<Sphere>, r_in: Ray, rec: HitRecord, coin: int, sample: Vec3) -> Option<(Color, Ray)> {
    match m {
        Material::Lambertian(l) => Some(lambert_spec(l.albedo, rec, sample)),
        Material::Metal(mt) => metal_spec(mt.albedo, mt.fuzz as int, r_in, rec, sample),
        Material::Dielectric(d) => Some(dielectric_spec(d.ir as int, r_in, rec, coin)),
        Material::Phong(ph) => phong_spec(ph, vpos, lights, objs, r_in, rec, coin, sample),
    }
}

impl Scatter for Material {
    open spec fn scatter_wf(&self) -> bool {
        self.wf()
    }

    open spec fn response(
        &self,
        vpos: Point3,
        lights: Seq<SimpleLight>,
        objs: Seq<Sphere>,
        r_in: Ray,
        rec: HitRecord,
        coin: int,
        sample: Vec3,
    ) -> Option<(Color, Ray)> {
        scatter_spec(*self, vpos, lights, objs, r_in, rec, coin, sample)
    }

    open spec fn occlusion_spec(&self) -> int {
        match self {
            Material::Lambertian(m) => m.occlusion as int,
            Material::Metal(m) => m.occlusion as int,
            Material::Dielectric(m) => m.occlusion as int,
            Material::Phong(m) => m.occlusion as int,
        }
    }

    fn scatter(
        &self,
        vpos: Point3,
        lights: &Lighting,
        world: &World,
        r_in: &Ray,
        rec: &HitRecord,
        rng: &mut StdRng,
    ) -> (res: Option<(Color, Ray)>) {
        let coin = random_unit(rng);
        let sample = random_in_unit_sphere(rng);
        let res = self.scatter_with(vpos, lights, world, r_in, rec, coin, sample);
        assert(res == self.response(vpos, lights@, world.objects@, *r_in, *rec, coin as int, sample));
        res
    }

    fn occlusion(&self) -> (r: i64) {
        match self {
            Material::Lambertian(m) => m.occlusion,
            Material::Metal(m) => m.occlusion,
            Material::Dielectric(m) => m.occlusion,
            Material::Phong(m) => m.occlusion,
        }
    }
}

impl Scatter for Lambertian {
    open spec fn scatter_wf(&self) -> bool {
        Material::Lambertian(*self).wf()
    }

    open spec fn response(
        &self,
        vpos: Point3,
        lights: Seq<SimpleLight>,
        objs: Seq<Sphere>,
        r_in: Ray,
        rec: HitRecord,
        coin: int,
        sample: Vec3,
    ) -> Option<(Color, Ray)> {
        scatter_spec(Material::Lambertian(*self), vpos, lights, objs, r_in, rec, coin, sample)
    }

    open spec fn occlusion_spec(&self) -> int {
        self.occlusion as int
    }

    fn scatter(
        &self,
        vpos: Point3,
        lights: &Lighting,
        world: &World,
        r_in: &Ray,
        rec: &HitRecord,
        rng: &mut StdRng,
    ) -> (res: Option<(Color, Ray)>) {
        let m = Material::Lambertian(*self);
        let res = m.scatter(vpos, lights, world, r_in, rec, rng);
        proof {
            let (coin, sample) = choose|coin: int, sample: Vec3|
                0 <= coin < FX && in_unit_ball(sample) && sample.wf() && res == #[trigger] m.response(
                    vpos,
                    lights@,
                    world.objects@,
                    *r_in,
                    *rec,
                    coin,
                    sample,
                );
            assert(res == self.response(vpos, lights@, world.objects@, *r_in, *rec, coin, sample));
        }
        res
    }

    fn occlusion(&self) -> (r: i64) {
        self.occlusion
    }
}

impl Scatter for Metal {
    open spec fn scatter_wf(&self) -> bool {
        Material::Metal(*self).wf()
    }

    open spec fn response(
        &self,
        vpos: Point3,
        lights: Seq<SimpleLight>,
        objs: Seq<Sphere>,
        r_in: Ray,
        rec: HitRecord,
        coin: int,
        sample: Vec3,
    ) -> Option<(Color, Ray)> {
        scatter_spec(Material::Metal(*self), vpos, lights, objs, r_in, rec, coin, sample)
    }

    open spec fn occlusion_spec(&self) -> int {
        self.occlusion as int
    }

    fn scatter(
        &self,
        vpos: Point3,
        lights: &Lighting,
        world: &World,
        r_in: &Ray,
        rec: &HitRecord,
        rng: &mut StdRng,
    ) -> (res: Option<(Color, Ray)>) {
        let m = Material::Metal(*self);
        let res = m.scatter(vpos, lights, world, r_in, rec, rng);
        proof {
            let (coin, sample) = choose|coin: int, sample: Vec3|
                0 <= coin < FX && in_unit_ball(sample) && sample.wf() && res == #[trigger] m.response(
                    vpos,
                    lights@,
                    world.objects@,
                    *r_in,
                    *rec,
                    coin,
                    sample,
                );
            assert(res == self.response(vpos, lights@, world.objects@, *r_in, *rec, coin, sample));
        }
        res
    }

    fn occlusion(&self) -> (r: i64) {
        self.occlusion
    }
}

impl Scatter for Dielectric {
    open spec fn scatter_wf(&self) -> bool {
        Material::Dielectric(*self).wf()
    }

    open spec fn response(
        &self,
        vpos: Point3,
        lights: Seq<SimpleLight>,
        objs: Seq<Sphere>,
        r_in: Ray,
        rec: HitRecord,
        coin: int,
        sample: Vec3,
    ) -> Option<(Color, Ray)> {
        scatter_spec(Material::Dielectric(*self), vpos, lights, objs, r_in, rec, coin, sample)
    }

    open spec fn occlusion_spec(&self) -> int {
        self.occlusion as int
    }

    fn scatter(
        &self,
        vpos: Point3,
        lights: &Lighting,
        world: &World,
        r_in: &Ray,
        rec: &HitRecord,
        rng: &mut StdRng,
    ) -> (res: Option<(Color, Ray)>) {
        let m = Material::Dielectric(*self);
        let res = m.scatter(vpos, lights, world, r_in, rec, rng);
        proof {
            let (coin, sample) = choose|coin: int, sample: Vec3|
                0 <= coin < FX && in_unit_ball(sample) && sample.wf() && res == #[trigger] m.response(
                    vpos,
                    lights@,
                    world.objects@,
                    *r_in,
                    *rec,
                    coin,
                    sample,
                );
            assert(res == self.response(vpos, lights@, world.objects@, *r_in, *rec, coin, sample));
        }
        res
    }

    fn occlusion(&self) -> (r: i64) {
        self.occlusion
    }
}

impl Scatter for PhongMat {
    open spec fn scatter_wf(&self) -> bool {
        Material::Phong(*self).wf()
    }

    open spec fn response(
        &self,
        vpos: Point3,
        lights: Seq<SimpleLight>,
        objs: Seq<Sphere>,
        r_in: Ray,
        rec: HitRecord,
        coin: int,
        sample: Vec3,
    ) -> Option<(Color, Ray)> {
        scatter_spec(Material::Phong(*self), vpos, lights, objs, r_in, rec, coin, sample)
    }

    open spec fn occlusion_spec(&self) -> int {
        self.occlusion as int
    }

    fn scatter(
        &self,
        vpos: Point3,
        lights: &Lighting,
        world: &World,
        r_in: &Ray,
        rec: &HitRecord,
        rng: &mut StdRng,
    ) -> (res: Option<(Color, Ray)>) {
        let m = Material::Phong(*self);
        let res = m.scatter(vpos, lights, world, r_in, rec, rng);
        proof {
            let (coin, sample) = choose|coin: int, sample: Vec3|
                0 <= coin < FX && in_unit_ball(sample) && sample.wf() && res == #[trigger] m.response(
                    vpos,
                    lights@,
                    world.objects@,
                    *r_in,
                    *rec,
                    coin,
                    sample,
                );
            assert(res == self.response(vpos, lights@, world.objects@, *r_in, *rec, coin, sample));
        }
        res
    }

    fn occlusion(&self) -> (r: i64) {
        self.occlusion
    }
}

impl Lambertian {
    /// The diffuse bounce toward the unit-ball point `sample`.
    pub fn scatter_with(&self, rec: &HitRecord, sample: Vec3) -> (res: (Color, Ray))
        requires
            rec.wf(),
            sample.wf(),
        ensures
            res == lambert_spec(self.albedo, *rec, sample),
            res.1.wf(),
    {
        let mut scatter_direction = rec.normal.plus(sample.normalized());
        if scatter_direction.near_zero() {
            scatter_direction = rec.normal;
        }
        (self.albedo, Ray::new(rec.p, scatter_direction))
    }
}

impl Metal {
    /// The blurred mirror bounce with the unit-ball point `sample`.
    pub fn scatter_with(&self, r_in: &Ray, rec: &HitRecord, sample: Vec3) -> (res: Option<(Color, Ray)>)
        requires
            r_in.wf(),
            rec.wf(),
            sample.wf(),
            in_range(self.fuzz as int),
        ensures
            res == metal_spec(self.albedo, self.fuzz as int, *r_in, *rec, sample),
            res matches Some((c, ray)) ==> ray.wf(),
    {
        let scatter_direction = r_in.direction().reflect(rec.normal).normalized();
        let scattered = Ray::new(rec.p, scatter_direction.plus(sample.scale(self.fuzz)));
        if scattered.direction().dot(rec.normal) > 0 {
            Some((self.albedo, scattered))
        } else {
            None
        }
    }
}

impl Dielectric {
    /// Schlick's approximation of the reflectance.
    pub fn reflectance(cosine: i64, ref_idx: i64) -> (r: i64)
        requires
            in_range(cosine as int),
            0 < ref_idx <= FX * FX,
        ensures
            r == reflectance_spec(cosine as int, ref_idx as int),
    {
        let q = fdiv(FX - ref_idx, FX + ref_idx);
        let r0 = fmul(q, q);
        proof {
            lemma_mul_square_nonneg(q as int);
        }
        let base = clamp_wide(FX as i128 - cosine as i128);
        clamp_wide(r0 as i128 + fmul(FX - r0, fpow(base, 5)) as i128)
    }

    /// Reflection or refraction, where `coin` in `[0, 1)` decides between them
    /// when both are possible.
    pub fn scatter_with(&self, r_in: &Ray, rec: &HitRecord, coin: i64) -> (res: (Color, Ray))
        requires
            r_in.wf(),
            rec.wf(),
            0 < self.ir <= FX * FX,
        ensures
            res == dielectric_spec(self.ir as int, *r_in, *rec, coin as int),
            res.1.wf(),
    {
        let refraction_ratio = if rec.front_face {
            fdiv(FX, self.ir)
        } else {
            self.ir
        };
        let unit_direction = r_in.direction().normalized();
        let c = unit_direction.neg().dot(rec.normal);
        let cos_theta = if c < FX {
            c
        } else {
            FX
        };
        let s2 = clamp_wide(FX as i128 - fmul(cos_theta, cos_theta) as i128);
        let sin_theta = if s2 >= 0 {
            fsqrt(s2)
        } else {
            0
        };
        let cannot_refract = fmul(refraction_ratio, sin_theta) > FX;
        let will_reflect = coin < Self::reflectance(cos_theta, self.ir);
        let direction = if cannot_refract || will_reflect {
            unit_direction.reflect(rec.normal)
        } else {
            unit_direction.refract(rec.normal, refraction_ratio)
        };
        (Vec3::new(FX, FX, FX), Ray::new(rec.p, direction))
    }
}

impl PhongMat {
    /// Whether the light at `lpos` shines on the point `p` with normal `n`.
    pub fn is_lit(p: Point3, n: Vec3, world: &World, lpos: Point3) -> (r: bool)
        requires
            p.wf(),
            n.wf(),
            lpos.wf(),
            world.wf(),
        ensures
            r == light_visible(p, n, world.objects@, lpos),
    {
        if n.dot(lpos.minus(p)) < 0 {
            return false;
        }
        let ray = Ray::new(p, lpos.minus(p).normalized());
        !world.occluding_hit(&ray, lpos, T_MIN, LIM)
    }

    /// The diffuse bounce toward the unit-ball point `sample`.
    pub fn lambertian(&self, rec: &HitRecord, sample: Vec3) -> (res: (Color, Ray))
        requires
            rec.wf(),
            sample.wf(),
        ensures
            res == lambert_spec(self.albedo, *rec, sample),
            res.1.wf(),
    {
        Lambertian::new(self.albedo).scatter_with(rec, sample)
    }

    /// The blurred mirror bounce with the unit-ball point `sample`.
    pub fn specular(&self, r_in: &Ray, rec: &HitRecord, sample: Vec3) -> (res: Option<(Color, Ray)>)
        requires
            r_in.wf(),
            rec.wf(),
            sample.wf(),
            in_range(self.fuzz as int),
        ensures
            res == metal_spec(self.albedo, self.fuzz as int, *r_in, *rec, sample),
            res matches Some((c, ray)) ==> ray.wf(),
    {
        Metal::new(self.albedo, self.fuzz).scatter_with(r_in, rec, sample)
    }

    /// The Phong terms of one light.
    fn light_term(&self, l: &SimpleLight, p: Point3, n: Vec3, v: Vec3) -> (r: Color)
        requires
            l.wf(),
            p.wf(),
            n.wf(),
            v.wf(),
            in_range(self.d as int),
            in_range(self.s as int),
            in_range(self.b as int),
            self.g > 0,
        ensures
            r == phong_term(*self, *l, p, n, v),
            r.wf(),
    {
        let ld = l.origin().minus(p).normalized();
        let diffuse = ld.dot(n);
        let refl = ld.reflect(n).normalized();
        let lambda = clamp_wide(FX as i128 - refl.dot(v) as i128);
        let tmp = clamp_wide(FX as i128 - fmul(self.b, lambda) as i128);
        let specular = if 0 < tmp {
            fpow(tmp, self.g as u32)
        } else {
            0
        };
        l.diffuse().scale(fmul(self.d, diffuse)).plus(l.specular().scale(fmul(self.s, specular)))
    }

    /// Direct illumination summed over the visible lights, times the attenuation
    /// of the bounce that `coin` in `[0, 1)` chooses; absorbed when that bounce is.
    pub fn illumination_with(
        &self,
        vpos: Point3,
        lights: &Lighting,
        world: &World,
        r_in: &Ray,
        rec: &HitRecord,
        coin: i64,
        sample: Vec3,
    ) -> (res: Option<(Color, Ray)>)
        requires
            Material::Phong(*self).wf(),
            vpos.wf(),
            lighting_wf(lights@),
            world.wf(),
            r_in.wf(),
            rec.wf(),
            sample.wf(),
        ensures
            res == phong_spec(*self, vpos, lights@, world.objects@, *r_in, *rec, coin as int, sample),
            res matches Some((c, ray)) ==> c.wf() && ray.wf(),
    {
        let mut illumination = Vec3::zero();
        let viewer_direction = vpos.minus(rec.p).normalized();
        let n = lights.len();
        let mut i: usize = 0;
        while i < n
            invariant
                n == lights@.len(),
                0 <= i <= n,
                Material::Phong(*self).wf(),
                lighting_wf(lights@),
                world.wf(),
                rec.wf(),
                viewer_direction.wf(),
                viewer_direction == vnormalized(vminus(vpos, rec.p)),
                illumination == illumination_spec(*self, lights@.take(i as int), world.objects@, rec.p, rec.normal, viewer_direction),
                illumination.wf(),
            decreases n - i,
        {
            let ghost pre = lights@.take(i as int + 1);
            assert(pre.drop_last() =~= lights@.take(i as int));
            assert(pre.last() == lights@[i as int]);
            let light = &lights[i];
            if Self::is_lit(rec.p, rec.normal, world, light.origin()) {
                illumination = illumination.plus(self.light_term(light, rec.p, rec.normal, viewer_direction));
            }
            i = i + 1;
        }
        assert(lights@.take(n as int) =~= lights@);
        if coin < self.d_s {
            let (attenuation, scattered) = self.lambertian(rec, sample);
            Some((illumination.mul_elem(attenuation), scattered))
        } else {
            match self.specular(r_in, rec, sample) {
                Some((attenuation, scattered)) => Some((illumination.mul_elem(attenuation), scattered)),
                None => None,
            }
        }
    }
}

/// Schlick's reflectance lies in `[0, 1]` for a cosine in `[0, 1]` and a
/// positive index, and at a cosine of `1` it equals the reflectance at normal
/// incidence, `((1 - ref_idx) / (1 + ref_idx))^2`.
pub proof fn lemma_reflectance_range(cosine: int, ref_idx: int)
    requires
        0 <= cosine <= FX,
        0 < ref_idx <= FX * FX,
    ensures
        0 <= reflectance_spec(cosine, ref_idx) <= FX,
        cosine == FX ==> reflectance_spec(cosine, ref_idx) == mul_spec(
            div_spec(FX - ref_idx, FX + ref_idx),
            div_spec(FX - ref_idx, FX + ref_idx),
        ),
{
    let q = div_spec(FX - ref_idx, FX + ref_idx);
    let e = (FX - ref_idx) * FX;
    let dv = FX + ref_idx;
    assert(-(dv * FX) <= e <= dv * FX) by (nonlinear_arith)
        requires
            e == (FX - ref_idx) * FX,
            dv == FX + ref_idx,
            ref_idx > 0,
    ;
    assert(-FX <= tdiv(e, dv) <= FX) by (nonlinear_arith)
        requires
            -(dv * FX) <= e <= dv * FX,
            dv > 0,
            tdiv(e, dv) == (if e >= 0 { e / dv } else { -((-e) / dv) }),
    ;
    assert(-FX <= q <= FX);
    let r0 = mul_spec(q, q);
    assert(0 <= q * q <= FX * FX) by (nonlinear_arith)
        requires
            -FX <= q <= FX,
    ;
    assert(0 <= (q * q) / (FX as int) <= FX) by (nonlinear_arith)
        requires
            0 <= q * q <= FX * FX,
    ;
    assert(0 <= r0 <= FX);
    let base = clamp(FX - cosine);
    assert(0 <= base <= FX);
    lemma_pow_unit(base, 5);
    let p = pow_spec(base, 5);
    assert(0 <= (FX - r0) * p <= (FX - r0) * FX) by (nonlinear_arith)
        requires
            0 <= p <= FX,
            0 <= FX - r0,
    ;
    assert(0 <= ((FX - r0) * p) / (FX as int) <= FX - r0) by (nonlinear_arith)
        requires
            0 <= (FX - r0) * p <= (FX - r0) * FX,
    ;
    if cosine == FX {
        assert(base == 0);
        assert(pow_spec(0, 5) == 0) by {
            reveal_with_fuel(pow_spec, 6);
        }
        assert((FX - r0) * 0 == 0);
        assert(mul_spec(FX - r0, 0) == 0);
        assert(reflectance_spec(cosine, ref_idx) == clamp(r0 + 0));
    }
}

/// A power of a number in `[0, 1]` stays in `[0, 1]`.
pub proof fn lemma_pow_unit(x: int, k: nat)
    requires
        0 <= x <= FX,
    ensures
        0 <= pow_spec(x, k) <= FX,
    decreases k,
{
    if k > 0 {
        lemma_pow_unit(x, (k - 1) as nat);
        let p = pow_spec(x, (k - 1) as nat);
        assert(0 <= x * p <= FX * FX) by (nonlinear_arith)
            requires
                0 <= x <= FX,
                0 <= p <= FX,
        ;
        assert(0 <= (x * p) / (FX as int) <= FX) by (nonlinear_arith)
            requires
                0 <= x * p <= FX * FX,
        ;
    }
}

/// Flooring division by `FX` of two ordered non-negative values differs by at
/// most the quotient of their difference, plus one.
proof fn lemma_floor_div_gap(a: int, b: int)
    requires
        0 <= b <= a,
    ensures
        0 <= a / (FX as int) - b / (FX as int) <= (a - b) / (FX as int) + 1,
{
    assert(0 <= a / (FX as int) - b / (FX as int) <= (a - b) / (FX as int) + 1) by (nonlinear_arith)
        requires
            0 <= b <= a,
    ;
}

/// Powers of numbers in `[0, 1]` are ordered like their bases, and grow apart
/// by at most `k` times the gap of the bases, plus one unit of rounding per factor.
pub proof fn lemma_pow_gap(x1: int, x2: int, k: nat)
    requires
        0 <= x2 <= x1 <= FX,
    ensures
        0 <= pow_spec(x1, k) - pow_spec(x2, k) <= k * (x1 - x2) + k,
    decreases k,
{
    if k > 0 {
        let j = (k - 1) as nat;
        lemma_pow_gap(x1, x2, j);
        lemma_pow_unit(x1, j);
        lemma_pow_unit(x2, j);
        let p1 = pow_spec(x1, j);
        let p2 = pow_spec(x2, j);
        let d = x1 - x2;
        assert(0 <= x2 * p2 <= x1 * p1 <= FX * FX) by (nonlinear_arith)
            requires
                0 <= x2 <= x1 <= FX,
                0 <= p2 <= p1 <= FX,
        ;
        assert(x1 * p1 - x2 * p2 <= FX * (p1 - p2) + d * FX) by (nonlinear_arith)
            requires
                0 <= x2 <= x1 <= FX,
                0 <= p2 <= p1 <= FX,
                d == x1 - x2,
        ;
        assert((x1 * p1 - x2 * p2) / (FX as int) <= (p1 - p2) + d) by (nonlinear_arith)
            requires
                0 <= x1 * p1 - x2 * p2 <= FX * (p1 - p2) + d * FX,
        ;
        lemma_floor_div_gap(x1 * p1, x2 * p2);
        assert(0 <= (x1 * p1) / (FX as int) <= FX) by (nonlinear_arith)
            requires
                0 <= x1 * p1 <= FX * FX,
        ;
        assert(0 <= (x2 * p2) / (FX as int) <= FX) by (nonlinear_arith)
            requires
                0 <= x2 * p2 <= FX * FX,
        ;
        assert(pow_spec(x1, k) == (x1 * p1) / (FX as int));
        assert(pow_spec(x2, k) == (x2 * p2) / (FX as int));
        assert(k * d + k == j * d + j + d + 1) by (nonlinear_arith)
            requires
                j == k - 1,
        ;
    }
}

/// Schlick's reflectance is continuous in the cosine: over cosines in `[0, 1]`
/// it never rises as the cosine grows, and it changes by at most five times the
/// change of the cosine, plus six units of fixed-point rounding.
pub proof fn lemma_reflectance_continuous(c1: int, c2: int, ref_idx: int)
    requires
        0 <= c1 <= c2 <= FX,
        0 < ref_idx <= FX * FX,
    ensures
        0 <= reflectance_spec(c1, ref_idx) - reflectance_spec(c2, ref_idx) <= 5 * (c2 - c1) + 6,
{
    lemma_reflectance_range(c1, ref_idx);
    lemma_reflectance_range(c2, ref_idx);
    let q = div_spec(FX - ref_idx, FX + ref_idx);
    let r0 = mul_spec(q, q);
    lemma_mul_square_nonneg(q);
    let b1 = FX - c1;
    let b2 = FX - c2;
    assert(clamp(FX - c1) == b1 && clamp(FX - c2) == b2);
    lemma_pow_gap(b1, b2, 5);
    lemma_pow_unit(b1, 5);
    lemma_pow_unit(b2, 5);
    let p1 = pow_spec(b1, 5);
    let p2 = pow_spec(b2, 5);
    let e = (FX - ref_idx) * FX;
    let dv = FX + ref_idx;
    assert(-(dv * FX) <= e <= dv * FX) by (nonlinear_arith)
        requires
            e == (FX - ref_idx) * FX,
            dv == FX + ref_idx,
            ref_idx > 0,
    ;
    assert(-FX <= tdiv(e, dv) <= FX) by (nonlinear_arith)
        requires
            -(dv * FX) <= e <= dv * FX,
            dv > 0,
            tdiv(e, dv) == (if e >= 0 { e / dv } else { -((-e) / dv) }),
    ;
    assert(0 <= q * q <= FX * FX) by (nonlinear_arith)
        requires
            -FX <= q <= FX,
    ;
    assert(0 <= (q * q) / (FX as int) <= FX) by (nonlinear_arith)
        requires
            0 <= q * q <= FX * FX,
    ;
    let w = FX - r0;
    assert(0 <= w * p2 <= w * p1 <= w * FX) by (nonlinear_arith)
        requires
            0 <= w,
            0 <= p2 <= p1 <= FX,
    ;
    assert(w * p1 - w * p2 <= FX * (p1 - p2)) by (nonlinear_arith)
        requires
            0 <= w <= FX,
            0 <= p2 <= p1,
    ;
    assert((w * p1 - w * p2) / (FX as int) <= p1 - p2) by (nonlinear_arith)
        requires
            0 <= w * p1 - w * p2 <= FX * (p1 - p2),
    ;
    lemma_floor_div_gap(w * p1, w * p2);
    assert(0 <= (w * p1) / (FX as int) <= w) by (nonlinear_arith)
        requires
            0 <= w * p1 <= w * FX,
    ;
    assert(0 <= (w * p2) / (FX as int) <= w) by (nonlinear_arith)
        requires
            0 <= w * p2 <= w * FX,
    ;
    assert(mul_spec(w, p1) == (w * p1) / (FX as int));
    assert(mul_spec(w, p2) == (w * p2) / (FX as int));
}

} // verus!
