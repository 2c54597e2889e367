//! The recursive color integrator and the per-pixel sampler.
use vstd::prelude::*;
use rand::rngs::StdRng;
use crate::camera::{ray_spec, Camera};
use crate::fixed::{clamp, clamp_wide, fmul, fsqrt, in_range, mul_spec, sqrt_spec, tdiv, tdiv_wide, FX, LIM};
use crate::hit::{scan_hit, Hit, World};
use crate::light::{lighting_wf, Light, Lighting, SimpleLight};
use crate::material::{light_visible, scatter_spec, T_MIN};
use crate::random::{in_unit_ball, in_unit_disk, random_in_unit_sphere, random_unit};
use crate::ray::Ray;
use crate::sphere::Sphere;
use crate::vec3::{vec_of, vmul, vnormalized, vplus, vscale, Color, Point3, Vec3};

verus! {

/// The diffuse intensity of the first light in order that shines on `p`.
pub open spec fn first_lit(lights: Seq<SimpleLight>, objs: Seq<Sphere>, p: Point3, n: Vec3) -> Option<Color>
    decreases lights.len(),
{
    if lights.len() == 0 {
        None
    } else if light_visible(p, n, objs, lights[0].origin) {
        Some(lights[0].i_diff)
    } else {
        first_lit(lights.drop_first(), objs, p, n)
    }
}

/// The diffuse intensity of the first light in order that shines on the point
/// `p` with normal `n`; none when every light is behind the surface or blocked.
pub fn is_lit(p: Point3, n: Vec3, world: &World, lights: &Lighting) -> (res: Option<Color>)
    requires
        p.wf(),
        n.wf(),
        world.wf(),
        lighting_wf(lights@),
    ensures
        res == first_lit(lights@, world.objects@, p, n),
{
    let len = lights.len();
    let mut i: usize = 0;
    assert(lights@.subrange(0, len as int) =~= lights@);
    while i < len
        invariant
            len == lights@.len(),
            0 <= i <= len,
            p.wf(),
            n.wf(),
            world.wf(),
            lighting_wf(lights@),
            first_lit(lights@, world.objects@, p, n) == first_lit(
                lights@.subrange(i as int, len as int),
                world.objects@,
                p,
                n,
            ),
        decreases len - i,
    {
        let ghost rest = lights@.subrange(i as int, len as int);
        assert(rest.drop_first() =~= lights@.subrange(i as int + 1, len as int));
        assert(rest[0] == lights@[i as int]);
        let light = &lights[i];
        if crate::material::PhongMat::is_lit(p, n, world, light.origin()) {
            return Some(light.diffuse());
        }
        i = i + 1;
    }
    None
}

/// The sky blue at the top of the background.
pub open spec fn sky() -> Color {
    vec_of(FX / 2, 45875, FX as int)
}

/// The background seen along `r`: white blended toward sky blue as the unit
/// direction's height goes from `-1` to `1`.
pub open spec fn background_spec(r: Ray) -> Color {
    let unit = vnormalized(r.dir);
    let t = mul_spec(FX / 2, clamp(unit.y + FX));
    vplus(vscale(vec_of(FX as int, FX as int, FX as int), clamp(FX - t)), vscale(sky(), t))
}

pub fn background(r: &Ray) -> (c: Color)
    requires
        r.wf(),
    ensures
        c == background_spec(*r),
        c.wf(),
{
    let unit_direction = r.direction().normalized();
    let t = fmul(FX / 2, clamp_wide(unit_direction.y as i128 + FX as i128));
    let white = Vec3::new(FX, FX, FX);
    let blue = Vec3::new(FX / 2, 45875, FX);
    white.scale(clamp_wide(FX as i128 - t as i128)).plus(blue.scale(t))
}

/// The draws of one bounce: a coin in `[0, 1)` and a point of the unit ball.
pub open spec fn valid_draw(d: (i64, Vec3)) -> bool {
    0 <= d.0 < FX && in_unit_ball(d.1) && d.1.wf()
}

pub open spec fn valid_draws(draws: Seq<(i64, Vec3)>) -> bool {
    forall|k: int| 0 <= k < draws.len() ==> valid_draw(#[trigger] draws[k])
}

/// The draws of the next bounce; where none are left, a zero coin and the centre.
pub open spec fn first_draw(draws: Seq<(i64, Vec3)>) -> (i64, Vec3) {
    if draws.len() > 0 {
        draws[0]
    } else {
        (0, vec_of(0, 0, 0))
    }
}

pub open spec fn rest_draws(draws: Seq<(i64, Vec3)>) -> Seq<(i64, Vec3)> {
    if draws.len() > 0 {
        draws.drop_first()
    } else {
        draws
    }
}

/// The color seen along `r` with `depth` bounces left, where bounce `k` uses the
/// draws `draws[k]`: black once the budget is spent; the background when nothing
/// is hit; black when no light reaches the hit point or its material absorbs
/// the ray; else the material's attenuation times the color seen along the
/// scattered ray with one bounce fewer.
pub open spec fn trace_spec(
    objs: Seq<Sphere>,
    lights: Seq<SimpleLight>,
    r: Ray,
    depth: nat,
    draws: Seq<(i64, Vec3)>,
) -> Color
    decreases depth,
{
    if depth == 0 {
        vec_of(0, 0, 0)
    } else {
        match scan_hit(objs, r, T_MIN as int, LIM as int) {
            None => background_spec(r),
            Some(rec) => match first_lit(lights, objs, rec.p, rec.normal) {
                None => vec_of(0, 0, 0),
                Some(_) => {
                    let d = first_draw(draws);
                    match scatter_spec(rec.mat, r.orig, lights, objs, r, rec, d.0 as int, d.1) {
                        None => vec_of(0, 0, 0),
                        Some((att, sc)) => vmul(
                            att,
                            trace_spec(objs, lights, sc, (depth - 1) as nat, rest_draws(draws)),
                        ),
                    }
                },
            },
        }
    }
}

/// With a single bounce left, a ray that hits a surface gives black: whatever
/// the material scatters is traced with no bounces left.
pub proof fn lemma_one_bounce_hit_is_black(objs: Seq<Sphere>, lights: Seq<SimpleLight>, r: Ray, draws: Seq<(i64, Vec3)>)
    requires
        scan_hit(objs, r, T_MIN as int, LIM as int) is Some,
    ensures
        trace_spec(objs, lights, r, 1, draws) == vec_of(0, 0, 0),
{
    let rec = scan_hit(objs, r, T_MIN as int, LIM as int)->Some_0;
    let d = first_draw(draws);
    if let Some((att, sc)) = scatter_spec(rec.mat, r.orig, lights, objs, r, rec, d.0 as int, d.1) {
        assert(trace_spec(objs, lights, sc, 0, rest_draws(draws)) == vec_of(0, 0, 0));
        assert(att.x * 0 == 0 && att.y * 0 == 0 && att.z * 0 == 0);
        assert(vmul(att, vec_of(0, 0, 0)) == vec_of(0, 0, 0));
    }
}

/// The color seen along `r` with `depth` bounces left, using the draws
/// `draws[k..]` for the bounces in turn.
pub fn ray_color_with(
    r: &Ray,
    world: &World,
    lights: &Lighting,
    depth: u64,
    draws: &Vec<(i64, Vec3)>,
    k: usize,
) -> (c: Color)
    requires
        r.wf(),
        world.wf(),
        lighting_wf(lights@),
        k <= draws@.len(),
        forall|m: int| 0 <= m < draws@.len() ==> (#[trigger] draws@[m]).1.wf(),
    ensures
        c == trace_spec(world.objects@, lights@, *r, depth as nat, draws@.subrange(k as int, draws@.len() as int)),
        c.wf(),
    decreases depth,
{
    let ghost ds = draws@.subrange(k as int, draws@.len() as int);
    if depth == 0 {
        return Vec3::zero();
    }
    match world.hit(r, T_MIN, LIM) {
        Some(rec) => {
            match is_lit(rec.p, rec.normal, world, lights) {
                Some(_) => {},
                None => return Vec3::zero(),
            }
            let (coin, sample, next_k) = if k < draws.len() {
                (draws[k].0, draws[k].1, k + 1)
            } else {
                (0, Vec3::zero(), k)
            };
            proof {
                if k < draws@.len() {
                    assert(ds[0] == draws@[k as int]);
                    assert(rest_draws(ds) =~= draws@.subrange(next_k as int, draws@.len() as int));
                } else {
                    assert(rest_draws(ds) =~= draws@.subrange(next_k as int, draws@.len() as int));
                }
            }
            match rec.mat.scatter_with(r.origin(), lights, world, r, &rec, coin, sample) {
                Some((attenuation, scattered)) => {
                    let next = ray_color_with(&scattered, world, lights, depth - 1, draws, next_k);
                    attenuation.mul_elem(next)
                },
                None => Vec3::zero(),
            }
        },
        None => background(r),
    }
}

/// The color seen along `r` with `depth` bounces left, with fresh draws from
/// `rng` for each bounce: the traced color for some valid draws.
pub fn ray_color(r: &Ray, world: &World, lights: &Lighting, depth: u64, rng: &mut StdRng) -> (c: Color)
    requires
        r.wf(),
        world.wf(),
        lighting_wf(lights@),
    ensures
        c.wf(),
        depth == 0 ==> c == vec_of(0, 0, 0),
        exists|draws: Seq<(i64, Vec3)>|
            valid_draws(draws) && c == #[trigger] trace_spec(world.objects@, lights@, *r, depth as nat, draws),
    decreases depth,
{
    let ghost none: Seq<(i64, Vec3)> = Seq::empty();
    if depth == 0 {
        let c = Vec3::zero();
        assert(c == trace_spec(world.objects@, lights@, *r, depth as nat, none));
        return c;
    }
    match world.hit(r, T_MIN, LIM) {
        Some(rec) => {
            match is_lit(rec.p, rec.normal, world, lights) {
                Some(_) => {},
                None => {
                    let c = Vec3::zero();
                    assert(c == trace_spec(world.objects@, lights@, *r, depth as nat, none));
                    return c;
                },
            }
            let coin = random_unit(rng);
            let sample = random_in_unit_sphere(rng);
            let ghost first = seq![(coin, sample)];
            assert(valid_draw(first[0]));
            match rec.mat.scatter_with(r.origin(), lights, world, r, &rec, coin, sample) {
                Some((attenuation, scattered)) => {
                    let next = ray_color(&scattered, world, lights, depth - 1, rng);
                    let c = attenuation.mul_elem(next);
                    proof {
                        let later = choose|d: Seq<(i64, Vec3)>|
                            valid_draws(d) && next == #[trigger] trace_spec(
                                world.objects@,
                                lights@,
                                scattered,
                                (depth - 1) as nat,
                                d,
                            );
                        let all = first + later;
                        assert(rest_draws(all) =~= later);
                        assert(first_draw(all) == (coin, sample));
                        assert forall|m: int| 0 <= m < all.len() implies valid_draw(#[trigger] all[m]) by {
                            if m > 0 {
                                assert(all[m] == later[m - 1]);
                            }
                        }
                        assert(c == trace_spec(world.objects@, lights@, *r, depth as nat, all));
                    }
                    c
                },
                None => {
                    let c = Vec3::zero();
                    assert(c == trace_spec(world.objects@, lights@, *r, depth as nat, first));
                    c
                },
            }
        },
        None => {
            let c = background(r);
            assert(c == trace_spec(world.objects@, lights@, *r, depth as nat, none));
            c
        },
    }
}

/// The screen coordinate in `[0, 1]` of pixel `i` of `n`, jittered by `r` in `[0, 1)`.
pub open spec fn screen_coord(i: int, r: int, n: int) -> int {
    tdiv(i * FX + r, n - 1)
}

pub fn screen_coordinate(i: u64, r: i64, n: u64) -> (s: i64)
    requires
        2 <= n <= 65536,
        i < n,
        0 <= r < FX,
    ensures
        s == screen_coord(i as int, r as int, n as int),
        in_range(s as int),
{
    let num = i as i128 * FX as i128 + r as i128;
    proof {
        crate::fixed::lemma_tdiv_bound(num as int, n - 1, LIM as int);
    }
    tdiv_wide(num, n as i128 - 1) as i64
}

/// The jitter of one sample: offsets in `[0, 1)` within the pixel and a point
/// of the unit lens disk.
pub open spec fn valid_jitter(jt: (i64, i64, Vec3)) -> bool {
    0 <= jt.0 < FX && 0 <= jt.1 < FX && in_unit_disk(jt.2) && jt.2.wf()
}

/// The camera ray of pixel `(i, j)` of a `w` by `h` image under jitter `jt`.
pub open spec fn sample_ray(cam: Camera, i: int, j: int, w: int, h: int, jt: (i64, i64, Vec3)) -> Ray {
    ray_spec(cam, screen_coord(i, jt.0 as int, w), screen_coord(j, jt.1 as int, h), jt.2)
}

/// The sum over samples `k` of the color traced along the camera ray under
/// jitter `jitter[k]` with the bounce draws `draws[k]`.
pub open spec fn pixel_sum(
    cam: Camera,
    objs: Seq<Sphere>,
    lights: Seq<SimpleLight>,
    i: int,
    j: int,
    w: int,
    h: int,
    depth: nat,
    jitter: Seq<(i64, i64, Vec3)>,
    draws: Seq<Seq<(i64, Vec3)>>,
) -> Color
    decreases jitter.len(),
{
    if jitter.len() == 0 {
        vec_of(0, 0, 0)
    } else {
        let k = jitter.len() - 1;
        vplus(
            pixel_sum(cam, objs, lights, i, j, w, h, depth, jitter.drop_last(), draws.take(k)),
            trace_spec(objs, lights, sample_ray(cam, i, j, w, h, jitter[k]), depth, draws[k]),
        )
    }
}

pub open spec fn draws_view(draws: Seq<Vec<(i64, Vec3)>>) -> Seq<Seq<(i64, Vec3)>> {
    draws.map_values(|v: Vec<(i64, Vec3)>| v@)
}

/// The sum of the estimates of the color of pixel `(i, j)` of a `width` by
/// `height` image, one for each jitter `jitter[k]` with bounce draws `draws[k]`,
/// each traced with at most `max_depth` bounces.
pub fn sample_pixel_with(
    cam: &Camera,
    world: &World,
    lights: &Lighting,
    i: u64,
    j: u64,
    width: u64,
    height: u64,
    max_depth: u64,
    jitter: &Vec<(i64, i64, Vec3)>,
    draws: &Vec<Vec<(i64, Vec3)>>,
) -> (c: Color)
    requires
        cam.wf(),
        world.wf(),
        lighting_wf(lights@),
        2 <= width <= 65536,
        2 <= height <= 65536,
        i < width,
        j < height,
        jitter@.len() == draws@.len(),
        forall|k: int| 0 <= k < jitter@.len() ==> valid_jitter(#[trigger] jitter@[k]),
        forall|k: int, m: int|
            0 <= k < draws@.len() && 0 <= m < draws@[k]@.len() ==> (#[trigger] draws@[k]@[m]).1.wf(),
    ensures
        c == pixel_sum(
            *cam,
            world.objects@,
            lights@,
            i as int,
            j as int,
            width as int,
            height as int,
            max_depth as nat,
            jitter@,
            draws_view(draws@),
        ),
        c.wf(),
{
    let ghost dv = draws_view(draws@);
    let mut pixel_color = Vec3::zero();
    let n = jitter.len();
    let mut k: usize = 0;
    assert(jitter@.take(0) =~= Seq::<(i64, i64, Vec3)>::empty());
    while k < n
        invariant
            n == jitter@.len(),
            n == draws@.len(),
            0 <= k <= n,
            cam.wf(),
            world.wf(),
            lighting_wf(lights@),
            2 <= width <= 65536,
            2 <= height <= 65536,
            i < width,
            j < height,
            dv == draws_view(draws@),
            forall|k: int| 0 <= k < jitter@.len() ==> valid_jitter(#[trigger] jitter@[k]),
            forall|k: int, m: int|
                0 <= k < draws@.len() && 0 <= m < draws@[k]@.len() ==> (#[trigger] draws@[k]@[m]).1.wf(),
            pixel_color == pixel_sum(
                *cam,
                world.objects@,
                lights@,
                i as int,
                j as int,
                width as int,
                height as int,
                max_depth as nat,
                jitter@.take(k as int),
                dv.take(k as int),
            ),
            pixel_color.wf(),
        decreases n - k,
    {
        let jt = jitter[k];
        assert(valid_jitter(jitter@[k as int]));
        let u = screen_coordinate(i, jt.0, width);
        let v = screen_coordinate(j, jt.1, height);
        let r = cam.get_ray_with(u, v, jt.2);
        let bounce = &draws[k];
        proof {
            assert(dv[k as int] == draws@[k as int]@);
            assert forall|m: int| 0 <= m < bounce@.len() implies (#[trigger] bounce@[m]).1.wf() by {
                assert(draws@[k as int]@[m].1.wf());
            }
            assert(bounce@.subrange(0, bounce@.len() as int) =~= bounce@);
        }
        let sample = ray_color_with(&r, world, lights, max_depth, bounce, 0);
        proof {
            let jk = jitter@.take(k as int + 1);
            assert(jk.drop_last() =~= jitter@.take(k as int));
            assert(dv.take(k as int + 1).take(k as int) =~= dv.take(k as int));
            assert(jk[k as int] == jt);
            assert(dv.take(k as int + 1)[k as int] == bounce@);
        }
        pixel_color = pixel_color.plus(sample);
        k = k + 1;
    }
    assert(jitter@.take(n as int) =~= jitter@);
    assert(dv.take(n as int) =~= dv);
    pixel_color
}

/// The sum of `samples` jittered estimates of the color of pixel `(i, j)` of a
/// `width` by `height` image, each traced with at most `max_depth` bounces: the
/// sum for some valid jitters and bounce draws, one of each per sample.
pub fn sample_pixel(
    cam: &Camera,
    world: &World,
    lights: &Lighting,
    i: u64,
    j: u64,
    width: u64,
    height: u64,
    samples: u64,
    max_depth: u64,
    rng: &mut StdRng,
) -> (c: Color)
    requires
        cam.wf(),
        world.wf(),
        lighting_wf(lights@),
        2 <= width <= 65536,
        2 <= height <= 65536,
        i < width,
        j < height,
    ensures
        c.wf(),
        exists|jitter: Seq<(i64, i64, Vec3)>, draws: Seq<Seq<(i64, Vec3)>>|
            {
                &&& jitter.len() == samples
                &&& draws.len() == samples
                &&& forall|k: int| 0 <= k < samples ==> valid_jitter(#[trigger] jitter[k])
                &&& forall|k: int| 0 <= k < samples ==> valid_draws(#[trigger] draws[k])
                &&& c == #[trigger] pixel_sum(
                    *cam,
                    world.objects@,
                    lights@,
                    i as int,
                    j as int,
                    width as int,
                    height as int,
                    max_depth as nat,
                    jitter,
                    draws,
                )
            },
{
    let mut pixel_color = Vec3::zero();
    let ghost mut jt: Seq<(i64, i64, Vec3)> = Seq::empty();
    let ghost mut dr: Seq<Seq<(i64, Vec3)>> = Seq::empty();
    let mut k: u64 = 0;
    while k < samples
        invariant
            0 <= k <= samples,
            cam.wf(),
            world.wf(),
            lighting_wf(lights@),
            2 <= width <= 65536,
            2 <= height <= 65536,
            i < width,
            j < height,
            jt.len() == k,
            dr.len() == k,
            forall|m: int| 0 <= m < k ==> valid_jitter(#[trigger] jt[m]),
            forall|m: int| 0 <= m < k ==> valid_draws(#[trigger] dr[m]),
            pixel_color == pixel_sum(
                *cam,
                world.objects@,
                lights@,
                i as int,
                j as int,
                width as int,
                height as int,
                max_depth as nat,
                jt,
                dr,
            ),
            pixel_color.wf(),
        decreases samples - k,
    {
        let random_u = random_unit(rng);
        let random_v = random_unit(rng);
        let u = screen_coordinate(i, random_u, width);
        let v = screen_coordinate(j, random_v, height);
        let r = cam.get_ray(u, v, rng);
        let sample = ray_color(&r, world, lights, max_depth, rng);
        proof {
            let rd = choose|rd: Vec3| in_unit_disk(rd) && rd.wf() && r == ray_spec(*cam, u as int, v as int, rd);
            let d = choose|d: Seq<(i64, Vec3)>|
                valid_draws(d) && sample == #[trigger] trace_spec(world.objects@, lights@, r, max_depth as nat, d);
            let jt2 = jt.push((random_u, random_v, rd));
            let dr2 = dr.push(d);
            assert(jt2.drop_last() =~= jt);
            assert(dr2.take(k as int) =~= dr);
            assert(valid_jitter(jt2[k as int]));
            assert forall|m: int| 0 <= m < k + 1 implies valid_jitter(#[trigger] jt2[m]) by {
                if m < k {
                    assert(jt2[m] == jt[m]);
                }
            }
            assert forall|m: int| 0 <= m < k + 1 implies valid_draws(#[trigger] dr2[m]) by {
                if m < k {
                    assert(dr2[m] == dr[m]);
                }
            }
            jt = jt2;
            dr = dr2;
        }
        pixel_color = pixel_color.plus(sample);
        k = k + 1;
    }
    pixel_color
}

/// One channel of an averaged pixel as a byte: the mean over `samples`,
/// gamma-corrected by a square root and clamped to `[0, 1)`, times 256.
pub open spec fn channel_byte(x: int, samples: int) -> int {
    let avg = tdiv(x, samples);
    let g = if avg <= 0 { 0 } else { sqrt_spec(avg) };
    let g = if g < FX { g } else { FX - 1 };
    (256 * g) / (FX as int)
}

pub fn channel_to_byte(x: i64, samples: u64) -> (b: u8)
    requires
        in_range(x as int),
        samples > 0,
    ensures
        b == channel_byte(x as int, samples as int),
{
    proof {
        crate::fixed::lemma_tdiv_bound(x as int, samples as int, LIM as int);
    }
    let avg = tdiv_wide(x as i128, samples as i128) as i64;
    let g = if avg <= 0 {
        0
    } else {
        fsqrt(avg)
    };
    let g = if g < FX {
        g
    } else {
        FX - 1
    };
    ((256 * g) / FX) as u8
}

/// The bytes of a pixel whose color is the sum of `samples` estimates.
pub fn color_bytes(pixel_color: Color, samples: u64) -> (b: (u8, u8, u8))
    requires
        pixel_color.wf(),
        samples > 0,
    ensures
        b.0 == channel_byte(pixel_color.x as int, samples as int),
        b.1 == channel_byte(pixel_color.y as int, samples as int),
        b.2 == channel_byte(pixel_color.z as int, samples as int),
{
    (
        channel_to_byte(pixel_color.x, samples),
        channel_to_byte(pixel_color.y, samples),
        channel_to_byte(pixel_color.z, samples),
    )
}

} // verus!
