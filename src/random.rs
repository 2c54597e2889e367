//! Random draws from a seeded generator that the caller owns.
use vstd::prelude::*;
use rand::rngs::StdRng;
use rand::Rng;
use crate::fixed::{lemma_mul_bound, FX};
use crate::vec3::{dot_exact, Vec3};

verus! {

/// rand's seeded generator, carried through as an opaque value: each worker owns
/// one, so draws need no shared state and a seed reproduces them.
#[verifier::external_type_specification]
#[verifier::external_body]
pub struct ExStdRng(StdRng);

/// Relies on rand::Rng::gen_range (uniform sampling of an integer range): the
/// value lies in `0..n`; it panics on an empty range, which `requires` excludes.
#[verifier::external_body]
fn draw_below(rng: &mut StdRng, n: i64) -> (r: i64)
    requires
        n > 0,
    ensures
        0 <= r < n,
{
    rng.gen_range(0..n)
}

/// A fixed-point number drawn from `[0, 1)`.
pub fn random_unit(rng: &mut StdRng) -> (r: i64)
    ensures
        0 <= r < FX,
{
    draw_below(rng, FX)
}

/// A fixed-point number drawn from `[lo, hi)`.
pub fn random_range(rng: &mut StdRng, lo: i64, hi: i64) -> (r: i64)
    requires
        -FX * FX <= lo < hi <= FX * FX,
    ensures
        lo <= r < hi,
{
    lo + draw_below(rng, hi - lo)
}

/// A point strictly inside the ball of radius `1`.
pub open spec fn in_unit_ball(v: Vec3) -> bool {
    dot_exact(v, v) < FX * FX
}

/// A point strictly inside the disk of radius `1` in the `z = 0` plane.
pub open spec fn in_unit_disk(v: Vec3) -> bool {
    in_unit_ball(v) && v.z == 0
}

/// The number of rejection rounds before a draw settles for the centre.
pub const MAX_TRIES: u32 = 64;

/// A point drawn uniformly from the unit ball by rejection sampling.
pub fn random_in_unit_sphere(rng: &mut StdRng) -> (r: Vec3)
    ensures
        in_unit_ball(r),
        r.wf(),
{
    let mut tries: u32 = 0;
    while tries < MAX_TRIES
        decreases MAX_TRIES - tries,
    {
        let p = Vec3 {
            x: random_range(rng, -FX, FX),
            y: random_range(rng, -FX, FX),
            z: random_range(rng, -FX, FX),
        };
        proof {
            lemma_mul_bound(p.x as int, p.x as int, FX as int);
            lemma_mul_bound(p.y as int, p.y as int, FX as int);
            lemma_mul_bound(p.z as int, p.z as int, FX as int);
        }
        let n = p.x as i128 * p.x as i128 + p.y as i128 * p.y as i128 + p.z as i128 * p.z as i128;
        if n < FX as i128 * FX as i128 {
            return p;
        }
        tries = tries + 1;
    }
    Vec3 { x: 0, y: 0, z: 0 }
}

/// A point drawn uniformly from the unit disk by rejection sampling.
pub fn random_in_unit_disk(rng: &mut StdRng) -> (r: Vec3)
    ensures
        in_unit_disk(r),
        r.wf(),
{
    let mut tries: u32 = 0;
    while tries < MAX_TRIES
        decreases MAX_TRIES - tries,
    {
        let p = Vec3 { x: random_range(rng, -FX, FX), y: random_range(rng, -FX, FX), z: 0 };
        proof {
            lemma_mul_bound(p.x as int, p.x as int, FX as int);
            lemma_mul_bound(p.y as int, p.y as int, FX as int);
        }
        let n = p.x as i128 * p.x as i128 + p.y as i128 * p.y as i128;
        if n < FX as i128 * FX as i128 {
            return p;
        }
        tries = tries + 1;
    }
    Vec3 { x: 0, y: 0, z: 0 }
}

} // verus!
