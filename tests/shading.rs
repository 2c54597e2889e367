use rand::rngs::StdRng;
use rand::SeedableRng;
use raytrace::camera::Camera;
use raytrace::fixed::FX;
use raytrace::hit::{Hit, HitRecord, OccludingHit, World};
use raytrace::light::{Light, Lighting, SimpleLight};
use raytrace::material::{Dielectric, Lambertian, Material, Metal, PhongMat, Scatter};
use raytrace::random::{random_in_unit_disk, random_in_unit_sphere, random_range, random_unit};
use raytrace::ray::Ray;
use raytrace::render::{
    background, color_bytes, is_lit, ray_color, ray_color_with, sample_pixel, sample_pixel_with, screen_coordinate,
};
use raytrace::scene::{random_scene, setup_hollow_sphere};
use raytrace::sphere::Sphere;
use raytrace::vec3::Vec3;

fn white() -> Vec3 {
    Vec3::new(FX, FX, FX)
}

fn lamb(c: i64) -> Material {
    Material::Lambertian(Lambertian::new(Vec3::new(c, c, c)))
}

fn up_record(mat: Material) -> HitRecord {
    HitRecord { p: Vec3::zero(), normal: Vec3::new(0, FX, 0), mat, t: FX, front_face: true }
}

#[test]
fn light_accessors() {
    let l = SimpleLight::new(white(), Vec3::new(FX, 0, 0), Vec3::new(0, 2 * FX, 0));
    assert_eq!(l.diffuse(), white());
    assert_eq!(l.specular(), Vec3::new(FX, 0, 0));
    assert_eq!(l.origin(), Vec3::new(0, 2 * FX, 0));
}

#[test]
fn opaque_occluder_hides_light() {
    let p = Vec3::zero();
    let n = Vec3::new(0, FX, 0);
    let lpos = Vec3::new(0, 4 * FX, 0);
    let mut world = World::new();
    assert!(PhongMat::is_lit(p, n, &world, lpos));
    world.push(Sphere::new(Vec3::new(0, 2 * FX, 0), FX / 2, lamb(FX / 2)));
    assert!(!PhongMat::is_lit(p, n, &world, lpos));
}

#[test]
fn transparent_occluder_lets_light_through() {
    let mut world = World::new();
    world.push(Sphere::new(Vec3::new(0, 2 * FX, 0), FX / 2, Material::Dielectric(Dielectric::new(3 * FX / 2, FX))));
    assert!(PhongMat::is_lit(Vec3::zero(), Vec3::new(0, FX, 0), &world, Vec3::new(0, 4 * FX, 0)));
}

#[test]
fn light_behind_surface_is_not_visible() {
    let world = World::new();
    assert!(!PhongMat::is_lit(Vec3::zero(), Vec3::new(0, FX, 0), &world, Vec3::new(0, -4 * FX, 0)));
}

#[test]
fn occluder_beyond_light_does_not_block() {
    let mut world = World::new();
    world.push(Sphere::new(Vec3::new(0, 8 * FX, 0), FX / 2, lamb(FX / 2)));
    let r = Ray::new(Vec3::zero(), Vec3::new(0, FX, 0));
    assert!(!world.occluding_hit(&r, Vec3::new(0, 4 * FX, 0), 66, raytrace::fixed::LIM));
}

#[test]
fn first_visible_light_wins() {
    let mut world = World::new();
    world.push(Sphere::new(Vec3::new(0, 2 * FX, 0), FX / 2, lamb(FX / 2)));
    let mut lights = Lighting::new();
    lights.push(SimpleLight::new(Vec3::new(FX, 0, 0), white(), Vec3::new(0, 4 * FX, 0)));
    lights.push(SimpleLight::new(Vec3::new(0, FX, 0), white(), Vec3::new(4 * FX, 4 * FX, 0)));
    lights.push(SimpleLight::new(Vec3::new(0, 0, FX), white(), Vec3::new(-4 * FX, 4 * FX, 0)));
    let p = Vec3::zero();
    let n = Vec3::new(0, FX, 0);
    assert_eq!(is_lit(p, n, &world, &lights), Some(Vec3::new(0, FX, 0)));
    assert_eq!(is_lit(p, n, &World::new(), &Lighting::new()), None);
}

#[test]
fn schlick_reflectance_values() {
    assert_eq!(Dielectric::reflectance(FX, 3 * FX / 2), 2621);
    assert_eq!(Dielectric::reflectance(0, FX), FX);
    assert_eq!(Dielectric::reflectance(FX, FX), 0);
    for c in [0, FX / 4, FX / 2, 3 * FX / 4, FX] {
        let r = Dielectric::reflectance(c, 3 * FX / 2);
        assert!((0..=FX).contains(&r));
    }
}

#[test]
fn lambertian_scatters_along_normal_plus_sample() {
    let m = Lambertian::new(Vec3::new(FX / 2, FX / 4, FX));
    let rec = up_record(Material::Lambertian(m));
    let (att, ray) = m.scatter_with(&rec, Vec3::new(FX / 2, 0, 0));
    assert_eq!(att, Vec3::new(FX / 2, FX / 4, FX));
    assert_eq!(ray.orig, Vec3::zero());
    assert_eq!(ray.dir, Vec3::new(FX, FX, 0));
    let (_, ray) = m.scatter_with(&rec, Vec3::new(0, -FX / 2, 0));
    assert_eq!(ray.dir, Vec3::new(0, FX, 0));
}

#[test]
fn metal_reflects_and_absorbs_into_surface() {
    let m = Metal::new(white(), 0);
    let rec = up_record(Material::Metal(m));
    let r_in = Ray::new(Vec3::new(-FX, FX, 0), Vec3::new(FX, -FX, 0));
    let (_, out) = m.scatter_with(&r_in, &rec, Vec3::zero()).unwrap();
    assert!(out.dir.x > 0 && out.dir.y > 0);
    let fuzzy = Metal::new(white(), 2 * FX);
    assert!(fuzzy.scatter_with(&r_in, &rec, Vec3::new(0, -FX / 2, 0)).is_none());
}

#[test]
fn dielectric_refracts_or_reflects_by_coin() {
    let m = Dielectric::new(3 * FX / 2, FX);
    let rec = up_record(Material::Dielectric(m));
    let r_in = Ray::new(Vec3::new(0, FX, 0), Vec3::new(0, -FX, 0));
    let (att, through) = m.scatter_with(&r_in, &rec, FX - 1);
    assert_eq!(att, white());
    assert_eq!(through.dir, Vec3::new(0, -FX, 0));
    let (_, back) = m.scatter_with(&r_in, &rec, 0);
    assert_eq!(back.dir, Vec3::new(0, FX, 0));
}

#[test]
fn phong_sums_visible_lights_times_albedo() {
    let m = PhongMat::new(FX, FX, 0, FX / 2, 4, white(), 0, FX, 0);
    assert_eq!(m.b, FX / 8);
    let rec = up_record(Material::Phong(m));
    let mut lights = Lighting::new();
    lights.push(SimpleLight::new(Vec3::new(FX / 2, FX / 2, FX / 2), white(), Vec3::new(0, 4 * FX, 0)));
    lights.push(SimpleLight::new(Vec3::new(FX / 4, FX / 4, FX / 4), white(), Vec3::new(0, 8 * FX, 0)));
    lights.push(SimpleLight::new(white(), white(), Vec3::new(0, -4 * FX, 0)));
    let world = World::new();
    let r_in = Ray::new(Vec3::new(0, FX, 0), Vec3::new(0, -FX, 0));
    let (att, _) = m
        .illumination_with(Vec3::new(0, FX, 0), &lights, &world, &r_in, &rec, 0, Vec3::zero())
        .unwrap();
    assert_eq!(att, Vec3::new(3 * FX / 4, 3 * FX / 4, 3 * FX / 4));
}

#[test]
fn depth_zero_is_black() {
    let mut world = World::new();
    let mut lights = Lighting::new();
    setup_hollow_sphere(&mut world, &mut lights);
    let mut rng = StdRng::seed_from_u64(1);
    let r = Ray::new(Vec3::zero(), Vec3::new(0, 0, -FX));
    assert_eq!(ray_color(&r, &world, &lights, 0, &mut rng), Vec3::zero());
    let sky = Ray::new(Vec3::zero(), Vec3::new(0, FX, 0));
    assert_eq!(ray_color(&sky, &world, &lights, 0, &mut rng), Vec3::zero());
}

#[test]
fn miss_shows_background_gradient() {
    let world = World::new();
    let lights = Lighting::new();
    let mut rng = StdRng::seed_from_u64(2);
    let up = Ray::new(Vec3::zero(), Vec3::new(0, FX, 0));
    assert_eq!(ray_color(&up, &world, &lights, 5, &mut rng), Vec3::new(FX / 2, 45875, FX));
    let down = Ray::new(Vec3::zero(), Vec3::new(0, -FX, 0));
    assert_eq!(background(&down), white());
}

#[test]
fn unlit_hit_is_black() {
    let mut world = World::new();
    world.push(Sphere::new(Vec3::new(0, 0, -3 * FX), FX, lamb(FX)));
    let lights = Lighting::new();
    let mut rng = StdRng::seed_from_u64(3);
    let r = Ray::new(Vec3::zero(), Vec3::new(0, 0, -FX));
    assert_eq!(ray_color(&r, &world, &lights, 5, &mut rng), Vec3::zero());
}

#[test]
fn pinhole_camera_centre_ray() {
    let cam = Camera::new(Vec3::zero(), Vec3::new(0, 0, -FX), Vec3::new(0, FX, 0), 2 * FX, 2 * FX, 0, FX);
    assert_eq!(cam.lower_left_corner, Vec3::new(-2 * FX, -FX, -FX));
    let r = cam.get_ray_with(FX / 2, FX / 2, Vec3::zero());
    assert_eq!(r.orig, Vec3::zero());
    assert_eq!(r.dir, Vec3::new(0, 0, -FX));
    let mut rng = StdRng::seed_from_u64(4);
    assert_eq!(cam.get_ray(0, 0, &mut rng).dir, Vec3::new(-2 * FX, -FX, -FX));
}

#[test]
fn random_draws_stay_in_range() {
    let mut rng = StdRng::seed_from_u64(5);
    let mut seen_high = false;
    for _ in 0..200 {
        let u = random_unit(&mut rng);
        assert!((0..FX).contains(&u));
        let v = random_range(&mut rng, -3, 9);
        assert!((-3..9).contains(&v));
        seen_high |= u > FX / 2;
        let s = random_in_unit_sphere(&mut rng);
        assert!((s.x as i128).pow(2) + (s.y as i128).pow(2) + (s.z as i128).pow(2) < (FX as i128).pow(2));
        let d = random_in_unit_disk(&mut rng);
        assert_eq!(d.z, 0);
    }
    assert!(seen_high);
}

#[test]
fn color_bytes_gamma_and_clamp() {
    assert_eq!(color_bytes(white(), 1), (255, 255, 255));
    assert_eq!(color_bytes(Vec3::zero(), 3), (0, 0, 0));
    assert_eq!(color_bytes(Vec3::new(FX, FX / 4, -FX), 4), (128, 64, 0));
}

#[test]
fn screen_coordinates_span_unit_interval() {
    assert_eq!(screen_coordinate(0, 0, 5), 0);
    assert_eq!(screen_coordinate(4, 0, 5), FX);
    assert_eq!(screen_coordinate(2, 0, 5), FX / 2);
}

#[test]
fn hollow_scene_contents() {
    let mut world = World::new();
    let mut lights = Lighting::new();
    setup_hollow_sphere(&mut world, &mut lights);
    assert_eq!(world.objects.len(), 3);
    assert_eq!(lights.len(), 1);
    assert_eq!(world.objects[0].radius, 100 * FX);
    assert_eq!(lights[0].origin(), Vec3::new(2 * FX, 0, -FX));
}

#[test]
fn random_scene_contents() {
    let mut rng = StdRng::seed_from_u64(6);
    let world = random_scene(&mut rng);
    assert_eq!(world.objects.len(), 533);
    assert_eq!(world.objects[0].radius, 1000 * FX);
    assert!(world.objects[1..530].iter().all(|s| s.radius == 13107));
    assert_eq!(world.objects[532].centre, Vec3::new(4 * FX, FX, 0));
}

fn ground_scene() -> (World, Lighting, Camera) {
    let mut world = World::new();
    world.push(Sphere::new(Vec3::new(0, -6586368, -FX), 100 * FX, lamb(52429)));
    world.push(Sphere::new(Vec3::new(0, 0, -FX), FX / 2, lamb(FX / 2)));
    let mut lights = Lighting::new();
    lights.push(SimpleLight::new(white(), white(), Vec3::new(0, 3 * FX, -FX)));
    let cam = Camera::new(Vec3::new(0, FX, FX), Vec3::new(0, -FX / 2, -FX), Vec3::new(0, FX, 0), 2 * FX, 2 * FX, 0, FX);
    (world, lights, cam)
}

fn luminance(c: Vec3) -> i64 {
    c.x + c.y + c.z
}

#[test]
fn lit_ground_brighter_than_shadow() {
    let (world, lights, cam) = ground_scene();
    let (w, h, samples) = (24u64, 12u64, 4u64);
    let mut rng = StdRng::seed_from_u64(7);
    let (mut lit, mut n_lit, mut dark, mut n_dark) = (0i64, 0i64, 0i64, 0i64);
    for j in 0..h {
        for i in 0..w {
            let u = screen_coordinate(i, FX / 2, w);
            let v = screen_coordinate(j, FX / 2, h);
            let r = cam.get_ray_with(u, v, Vec3::zero());
            let Some(rec) = world.hit(&r, 66, raytrace::fixed::LIM) else { continue };
            if rec.mat != lamb(52429) {
                continue;
            }
            let c = sample_pixel(&cam, &world, &lights, i, j, w, h, samples, 5, &mut rng);
            if is_lit(rec.p, rec.normal, &world, &lights).is_some() {
                lit += luminance(c);
                n_lit += 1;
            } else {
                dark += luminance(c);
                n_dark += 1;
            }
        }
    }
    assert!(n_lit > 0 && n_dark > 0);
    assert!(lit / n_lit > dark / n_dark);
}

#[test]
fn more_samples_lower_variance() {
    let (world, lights, cam) = ground_scene();
    let (w, h) = (24u64, 12u64);
    let (i, j) = (2u64, 2u64);
    let spread = |samples: u64| -> f64 {
        let means: Vec<f64> = (0..24u64)
            .map(|seed| {
                let mut rng = StdRng::seed_from_u64(100 + seed);
                let c = sample_pixel(&cam, &world, &lights, i, j, w, h, samples, 5, &mut rng);
                luminance(c) as f64 / samples as f64
            })
            .collect();
        let m = means.iter().sum::<f64>() / means.len() as f64;
        means.iter().map(|x| (x - m) * (x - m)).sum::<f64>() / means.len() as f64
    };
    assert!(spread(16) < spread(1));
}

#[test]
fn every_material_scatters_from_hit_point() {
    let world = World::new();
    let lights = Lighting::new();
    let r_in = Ray::new(Vec3::new(0, FX, 0), Vec3::new(FX / 4, -FX, 0));
    let mut rng = StdRng::seed_from_u64(8);
    let l = Lambertian::new(white());
    let rec = up_record(Material::Lambertian(l));
    let (att, out) = l.scatter(Vec3::new(0, FX, 0), &lights, &world, &r_in, &rec, &mut rng).unwrap();
    assert_eq!(att, white());
    assert_eq!(out.orig, Vec3::zero());
    assert!(out.dir.y > 0);
    let d = Dielectric::new(3 * FX / 2, FX);
    let (att, out) = d.scatter(Vec3::new(0, FX, 0), &lights, &world, &r_in, &rec, &mut rng).unwrap();
    assert_eq!(att, white());
    assert_eq!(out.orig, Vec3::zero());
    let m = Metal::new(white(), 0);
    let (_, out) = m.scatter(Vec3::new(0, FX, 0), &lights, &world, &r_in, &rec, &mut rng).unwrap();
    assert!(out.dir.y > 0 && out.dir.x > 0);
    assert_eq!(d.occlusion(), FX);
    assert_eq!(m.occlusion(), 0);
    assert_eq!(Material::Dielectric(d).occlusion(), FX);
    let p = PhongMat::new(FX, FX, 0, FX / 2, 4, white(), 0, FX, 0);
    let (att, _) = p.scatter(Vec3::new(0, FX, 0), &lights, &world, &r_in, &rec, &mut rng).unwrap();
    assert_eq!(att, Vec3::zero());
}

#[test]
fn tie_keeps_first_sphere_found() {
    let mut world = World::new();
    let mut lights = Lighting::new();
    setup_hollow_sphere(&mut world, &mut lights);
    let r = Ray::new(Vec3::zero(), Vec3::new(0, 0, -FX));
    let rec = world.hit(&r, 66, raytrace::fixed::LIM).unwrap();
    assert_eq!(rec.t, FX / 2);
    assert!(matches!(rec.mat, Material::Lambertian(_)));
    let mut w = World::new();
    w.push(Sphere::new(Vec3::new(0, 0, -3 * FX), FX, lamb(FX / 4)));
    w.push(Sphere::new(Vec3::new(0, 0, -3 * FX), FX, lamb(FX / 2)));
    assert_eq!(w.hit(&r, 1, 100 * FX).unwrap().mat, lamb(FX / 4));
}

#[test]
fn traced_color_with_given_draws() {
    let mut world = World::new();
    world.push(Sphere::new(Vec3::new(0, 0, -3 * FX), FX, lamb(FX / 2)));
    let mut lights = Lighting::new();
    lights.push(SimpleLight::new(white(), white(), Vec3::new(0, 0, 0)));
    let r = Ray::new(Vec3::zero(), Vec3::new(0, 0, -FX));
    let draws = vec![(0, Vec3::zero())];
    // The diffuse bounce leaves along the normal, level with the horizon, where
    // the sky is halfway between white and blue: (0.75, 0.85, 1) times 0.5.
    let c = ray_color_with(&r, &world, &lights, 2, &draws, 0);
    assert_eq!(c, Vec3::new(24576, 27852, 32768));
    assert_eq!(ray_color_with(&r, &world, &lights, 1, &draws, 0), Vec3::zero());
    let mut rng = StdRng::seed_from_u64(9);
    assert_eq!(ray_color(&r, &world, &lights, 1, &mut rng), Vec3::zero());
}

#[test]
fn pixel_sum_with_given_jitter() {
    let world = World::new();
    let lights = Lighting::new();
    let cam = Camera::new(Vec3::zero(), Vec3::new(0, 0, -FX), Vec3::new(0, FX, 0), 2 * FX, 2 * FX, 0, FX);
    let jitter = vec![(0, 0, Vec3::zero()), (0, 0, Vec3::zero())];
    let draws = vec![vec![], vec![]];
    let one = background(&cam.get_ray_with(FX / 2, FX / 2, Vec3::zero()));
    let c = sample_pixel_with(&cam, &world, &lights, 2, 2, 5, 5, 3, &jitter, &draws);
    assert_eq!(c, one.plus(one));
    assert_eq!(sample_pixel_with(&cam, &world, &lights, 2, 2, 5, 5, 3, &vec![], &vec![]), Vec3::zero());
}

#[test]
fn random_scene_cells() {
    let mut rng = StdRng::seed_from_u64(10);
    let world = random_scene(&mut rng);
    for a in -11i64..=11 {
        for b in -11i64..=11 {
            let s = world.objects[(1 + 23 * (a + 11) + (b + 11)) as usize];
            assert_eq!(s.centre.y, 13107);
            assert!(a * FX <= s.centre.x && s.centre.x < a * FX + 58982);
            assert!(b * FX <= s.centre.z && s.centre.z < b * FX + 58982);
            assert!(!matches!(s.mat, Material::Phong(_)));
        }
    }
}

#[test]
fn reflectance_changes_gradually() {
    let mut prev = Dielectric::reflectance(0, 3 * FX / 2);
    for step in 1..=64i64 {
        let c = step * FX / 64;
        let r = Dielectric::reflectance(c, 3 * FX / 2);
        assert!(r <= prev);
        assert!(prev - r <= 5 * (FX / 64) + 6);
        prev = r;
    }
}
