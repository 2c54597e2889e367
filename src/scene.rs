//! Ready-made scenes.
use vstd::prelude::*;
use rand::rngs::StdRng;
use crate::fixed::{mul_spec, FX};
use crate::hit::World;
use crate::light::{lighting_wf, Lighting, SimpleLight};
use crate::material::{Dielectric, Lambertian, Material, Metal, PhongMat};
use crate::random::{random_range, random_unit};
use crate::sphere::Sphere;
use crate::vec3::{vec_of, Color, Vec3};

verus! {

/// The spheres that the hollow-sphere scene adds: a large ground, a diffuse
/// ball and a Phong ball in the same place.
pub open spec fn hollow_spheres() -> Seq<Sphere> {
    seq![
        Sphere {
            centre: vec_of(0, -6586368, -65536),
            radius: 6553600,
            mat: Material::Lambertian(Lambertian { albedo: vec_of(52429, 52429, 0), occlusion: 0 }),
        },
        Sphere {
            centre: vec_of(0, 0, -65536),
            radius: 32768,
            mat: Material::Lambertian(Lambertian { albedo: vec_of(6554, 13107, 32768), occlusion: 0 }),
        },
        Sphere {
            centre: vec_of(0, 0, -65536),
            radius: 32768,
            mat: Material::Phong(
                PhongMat {
                    a: 65536,
                    d: 65536,
                    s: 0,
                    shine: 32768,
                    b: 8192,
                    g: 4,
                    albedo: vec_of(6554, 13107, 32768),
                    fuzz: 0,
                    d_s: 65536,
                    occlusion: 0,
                },
            ),
        },
    ]
}

/// The light that the hollow-sphere scene adds, white, to the right.
pub open spec fn hollow_light() -> SimpleLight {
    SimpleLight {
        i_diff: vec_of(65536, 65536, 65536),
        i_spec: vec_of(65536, 65536, 65536),
        origin: vec_of(131072, 0, -65536),
    }
}

/// Adds the hollow-sphere scene's spheres and light.
pub fn setup_hollow_sphere(world: &mut World, lights: &mut Lighting)
    requires
        old(world).wf(),
        lighting_wf(old(lights)@),
    ensures
        final(world).objects@ == old(world).objects@ + hollow_spheres(),
        final(lights)@ == old(lights)@.push(hollow_light()),
        final(world).wf(),
        lighting_wf(final(lights)@),
{
    let mat_ground = Material::Lambertian(Lambertian::new(Vec3::new(52429, 52429, 0)));
    let mat_centre = Material::Lambertian(Lambertian::new(Vec3::new(6554, 13107, 32768)));
    let mat_phong = Material::Phong(
        PhongMat::new(FX, FX, 0, FX / 2, 4, Vec3::new(6554, 13107, 32768), 0, FX, 0),
    );
    let sphere_ground = Sphere::new(Vec3::new(0, -6586368, -FX), 100 * FX, mat_ground);
    let sphere_centre = Sphere::new(Vec3::new(0, 0, -FX), FX / 2, mat_centre);
    let sphere_phong = Sphere::new(Vec3::new(0, 0, -FX), FX / 2, mat_phong);
    let light_right = SimpleLight::new(Vec3::new(FX, FX, FX), Vec3::new(FX, FX, FX), Vec3::new(2 * FX, 0, -FX));
    let ghost w0 = world.objects@;
    world.push(sphere_ground);
    world.push(sphere_centre);
    world.push(sphere_phong);
    assert(world.objects@ =~= w0 + hollow_spheres());
    lights.push(light_right);
}

/// The ground of the random scene.
pub open spec fn random_ground() -> Sphere {
    Sphere {
        centre: vec_of(0, -65536000, 0),
        radius: 65536000,
        mat: Material::Lambertian(Lambertian { albedo: vec_of(32768, 32768, 32768), occlusion: 0 }),
    }
}

/// The three large spheres that close the random scene: glass, diffuse, metal.
pub open spec fn random_big_three() -> Seq<Sphere> {
    seq![
        Sphere {
            centre: vec_of(0, 65536, 0),
            radius: 65536,
            mat: Material::Dielectric(Dielectric { ir: 98304, occlusion: 65536 }),
        },
        Sphere {
            centre: vec_of(-262144, 65536, 0),
            radius: 65536,
            mat: Material::Lambertian(Lambertian { albedo: vec_of(26214, 13107, 6554), occlusion: 0 }),
        },
        Sphere {
            centre: vec_of(262144, 65536, 0),
            radius: 65536,
            mat: Material::Metal(Metal { albedo: vec_of(45875, 39322, 32768), fuzz: 0, occlusion: 0 }),
        },
    ]
}

/// The position of the small sphere of grid cell `(a, b)` in the random scene.
pub open spec fn cell_index(a: int, b: int) -> int {
    1 + 23 * (a + 11) + (b + 11)
}

/// A small sphere of the random scene's grid cell `(a, b)`: radius `0.2`, resting
/// at height `0.2`, its centre at `a + dx, b + dz` with `dx, dz` in `[0, 0.9)`,
/// and either diffuse with an albedo in `[0, 1]`, metal with an albedo in
/// `[0.4, 1)` and a fuzz in `[0, 0.5)`, or glass of index `1.5`.
pub open spec fn small_in_cell(s: Sphere, a: int, b: int) -> bool {
    &&& s.wf()
    &&& s.radius == 13107
    &&& s.centre.y == 13107
    &&& a * FX <= s.centre.x < a * FX + 58982
    &&& b * FX <= s.centre.z < b * FX + 58982
    &&& match s.mat {
        Material::Lambertian(m) => 0 <= m.albedo.x <= FX && 0 <= m.albedo.y <= FX && 0 <= m.albedo.z <= FX,
        Material::Metal(m) => 26214 <= m.albedo.x < FX && 26214 <= m.albedo.y < FX && 26214 <= m.albedo.z < FX
            && 0 <= m.fuzz < FX / 2,
        Material::Dielectric(m) => m == Dielectric { ir: 98304, occlusion: FX },
        Material::Phong(_) => false,
    }
}

proof fn lemma_unit_product(x: int, y: int)
    requires
        0 <= x < FX,
        0 <= y < FX,
    ensures
        0 <= mul_spec(x, y) <= FX,
{
    assert(0 <= x * y <= FX * FX) by (nonlinear_arith)
        requires
            0 <= x < FX,
            0 <= y < FX,
    ;
    assert(0 <= (x * y) / (FX as int) <= FX) by (nonlinear_arith)
        requires
            0 <= x * y <= FX * FX,
    ;
}

/// A random color with each component in `[lo, hi)`.
fn random_color(rng: &mut StdRng, lo: i64, hi: i64) -> (c: Color)
    requires
        0 <= lo < hi <= FX,
    ensures
        c.wf(),
        lo <= c.x < hi && lo <= c.y < hi && lo <= c.z < hi,
{
    Vec3 { x: random_range(rng, lo, hi), y: random_range(rng, lo, hi), z: random_range(rng, lo, hi) }
}

/// A small sphere of radius `0.2` in the grid cell `(a, b)` with a random
/// material: diffuse, metal or glass with chances 80, 15 and 5 in 100.
fn random_small_sphere(rng: &mut StdRng, a: i64, b: i64) -> (s: Sphere)
    requires
        -11 <= a <= 11,
        -11 <= b <= 11,
    ensures
        small_in_cell(s, a as int, b as int),
{
    let choose_mat = random_unit(rng);
    let cx = a * FX + random_range(rng, 0, 58982);
    let cz = b * FX + random_range(rng, 0, 58982);
    let center = Vec3::new(cx, 13107, cz);
    let mat = if choose_mat < 52429 {
        let c1 = random_color(rng, 0, FX);
        let c2 = random_color(rng, 0, FX);
        proof {
            lemma_unit_product(c1.x as int, c2.x as int);
            lemma_unit_product(c1.y as int, c2.y as int);
            lemma_unit_product(c1.z as int, c2.z as int);
        }
        let albedo = c1.mul_elem(c2);
        Material::Lambertian(Lambertian::new(albedo))
    } else if choose_mat < 62259 {
        let albedo = random_color(rng, 26214, FX);
        let fuzz = random_range(rng, 0, FX / 2);
        Material::Metal(Metal::new(albedo, fuzz))
    } else {
        Material::Dielectric(Dielectric::new(98304, FX))
    };
    Sphere::new(center, 13107, mat)
}

/// A large ground, a grid of 23 by 23 small random spheres, and three large
/// spheres.
pub fn random_scene(rng: &mut StdRng) -> (world: World)
    ensures
        world.wf(),
        world.objects@.len() == 533,
        world.objects@[0] == random_ground(),
        world.objects@.subrange(530, 533) == random_big_three(),
        forall|a: int, b: int|
            -11 <= a <= 11 && -11 <= b <= 11 ==> #[trigger] small_in_cell(world.objects@[cell_index(a, b)], a, b),
{
    let mut world = World::new();
    let ground_mat = Material::Lambertian(Lambertian::new(Vec3::new(FX / 2, FX / 2, FX / 2)));
    world.push(Sphere::new(Vec3::new(0, -1000 * FX, 0), 1000 * FX, ground_mat));
    let mut a: i64 = -11;
    while a <= 11
        invariant
            -11 <= a <= 12,
            world.wf(),
            world.objects@.len() == 1 + 23 * (a + 11),
            world.objects@[0] == random_ground(),
            forall|a2: int, b2: int|
                -11 <= a2 < a && -11 <= b2 <= 11 ==> #[trigger] small_in_cell(world.objects@[cell_index(a2, b2)], a2, b2),
        decreases 12 - a,
    {
        let mut b: i64 = -11;
        while b <= 11
            invariant
                -11 <= a <= 11,
                -11 <= b <= 12,
                world.wf(),
                world.objects@.len() == 1 + 23 * (a + 11) + (b + 11),
                world.objects@[0] == random_ground(),
                forall|a2: int, b2: int|
                    (-11 <= a2 < a && -11 <= b2 <= 11) || (a2 == a && -11 <= b2 < b) ==> #[trigger] small_in_cell(
                        world.objects@[cell_index(a2, b2)],
                        a2,
                        b2,
                    ),
            decreases 12 - b,
        {
            let s = random_small_sphere(rng, a, b);
            let ghost before = world.objects@;
            world.push(s);
            proof {
                assert forall|a2: int, b2: int|
                    (-11 <= a2 < a && -11 <= b2 <= 11) || (a2 == a && -11 <= b2 < b + 1) implies #[trigger] small_in_cell(
                    world.objects@[cell_index(a2, b2)],
                    a2,
                    b2,
                ) by {
                    if a2 == a && b2 == b {
                        assert(cell_index(a2, b2) == before.len());
                    } else {
                        assert(cell_index(a2, b2) < before.len());
                        assert(world.objects@[cell_index(a2, b2)] == before[cell_index(a2, b2)]);
                    }
                }
            }
            b = b + 1;
        }
        a = a + 1;
    }
    let mat1 = Material::Dielectric(Dielectric::new(98304, FX));
    let mat2 = Material::Lambertian(Lambertian::new(Vec3::new(26214, 13107, 6554)));
    let mat3 = Material::Metal(Metal::new(Vec3::new(45875, 39322, 32768), 0));
    let ghost grid = world.objects@;
    world.push(Sphere::new(Vec3::new(0, FX, 0), FX, mat1));
    world.push(Sphere::new(Vec3::new(-4 * FX, FX, 0), FX, mat2));
    world.push(Sphere::new(Vec3::new(4 * FX, FX, 0), FX, mat3));
    assert(world.objects@.subrange(530, 533) =~= random_big_three());
    assert forall|a: int, b: int|
        -11 <= a <= 11 && -11 <= b <= 11 implies #[trigger] small_in_cell(world.objects@[cell_index(a, b)], a, b) by {
        assert(world.objects@[cell_index(a, b)] == grid[cell_index(a, b)]);
    }
    world
}

} // verus!
