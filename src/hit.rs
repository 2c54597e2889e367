//! Intersection records and the scene's collection of surfaces.
use vstd::prelude::*;
use crate::material::Material;
use crate::ray::Ray;
use crate::material::Scatter;
use crate::sphere::{lemma_sphere_front_face, sphere_hit_spec, Sphere};
use crate::vec3::{vdot, vminus, vneg, Point3, Vec3};

verus! {

/// Where a ray met a surface.
#[derive(Clone, Copy, Debug, PartialEq, Eq, Structural)]
pub struct HitRecord {
    pub p: Point3,
    pub normal: Vec3,
    pub mat: Material,
    pub t: i64,
    pub front_face: bool,
}

/// The face rule: a ray meets the front face when it runs against the outward
/// normal, and the recorded normal always opposes the ray.
pub open spec fn faces(rec: HitRecord, r: Ray, outward: Vec3) -> bool {
    &&& rec.front_face == (vdot(r.dir, outward) < 0)
    &&& rec.normal == (if rec.front_face { outward } else { vneg(outward) })
}

impl HitRecord {
    pub open spec fn wf(self) -> bool {
        self.p.wf() && self.normal.wf() && self.mat.wf()
    }

    /// Orients the normal against the ray, recording which face was hit.
    pub fn set_face_normal(&mut self, r: &Ray, outward_normal: Vec3)
        requires
            r.wf(),
            outward_normal.wf(),
        ensures
            faces(*final(self), *r, outward_normal),
            final(self).p == old(self).p,
            final(self).mat == old(self).mat,
            final(self).t == old(self).t,
    {
        self.front_face = r.direction().dot(outward_normal) < 0;
        self.normal = if self.front_face {
            outward_normal
        } else {
            outward_normal.neg()
        };
    }
}

/// The result of scanning `objs` in order for the nearest hit, narrowing the
/// upper bound to each hit found. A later surface replaces the hit found so far
/// only when it is strictly closer, so on a tie the first one found stays.
pub open spec fn scan_hit(objs: Seq<Sphere>, r: Ray, t_min: int, t_max: int) -> Option<HitRecord>
    decreases objs.len(),
{
    if objs.len() == 0 {
        None
    } else {
        let prev = scan_hit(objs.drop_last(), r, t_min, t_max);
        let hi = match prev {
            Some(h) => h.t as int,
            None => t_max,
        };
        match sphere_hit_spec(objs.last(), r, t_min, hi) {
            Some(rec) => if prev is Some && rec.t >= hi {
                prev
            } else {
                Some(rec)
            },
            None => prev,
        }
    }
}

/// Whether a hit blocks the light at `lp`: its material is opaque and the light
/// lies beyond it along the ray.
pub open spec fn blocks(rec: HitRecord, r: Ray, lp: Point3) -> bool {
    rec.mat.occlusion_spec() == 0 && vdot(r.dir, vminus(lp, rec.p)) > 0
}

/// The shadow query: the first surface in order that the ray meets at all decides.
pub open spec fn first_block(objs: Seq<Sphere>, r: Ray, lp: Point3, t_min: int, t_max: int) -> bool
    decreases objs.len(),
{
    if objs.len() == 0 {
        false
    } else {
        match sphere_hit_spec(objs[0], r, t_min, t_max) {
            Some(rec) => blocks(rec, r, lp),
            None => first_block(objs.drop_first(), r, lp, t_min, t_max),
        }
    }
}

/// Something a ray can hit. Every hit lies in the interval asked for and has
/// its normal turned against the ray: the dot product of the ray direction and
/// the recorded normal is never positive, and is negative on a front-face hit.
pub trait Hit {
    spec fn hit_wf(&self) -> bool;

    spec fn hit_spec(&self, r: Ray, t_min: int, t_max: int) -> Option<HitRecord>;

    /// The nearest hit of `r` whose parameter lies in `[t_min, t_max]`.
    fn hit(&self, r: &Ray, t_min: i64, t_max: i64) -> (res: Option<HitRecord>)
        requires
            self.hit_wf(),
            r.wf(),
        ensures
            res == self.hit_spec(*r, t_min as int, t_max as int),
            res matches Some(rec) ==> {
                &&& rec.wf()
                &&& t_min <= rec.t <= t_max
                &&& vdot(r.dir, rec.normal) <= 0
                &&& rec.front_face ==> vdot(r.dir, rec.normal) < 0
            },
    ;
}

/// A collection of surfaces that can answer shadow queries.
pub trait OccludingHit: Hit {
    spec fn occluding_spec(&self, r: Ray, lp: Point3, t_min: int, t_max: int) -> bool;

    /// Whether the surfaces block the light at `lp` from the origin of `r`.
    fn occluding_hit(&self, r: &Ray, lp: Point3, t_min: i64, t_max: i64) -> (res: bool)
        requires
            self.hit_wf(),
            r.wf(),
            lp.wf(),
        ensures
            res == self.occluding_spec(*r, lp, t_min as int, t_max as int),
    ;
}

/// The surfaces of a scene, in order.
pub struct World {
    pub objects: Vec<Sphere>,
}

impl World {
    pub open spec fn wf(&self) -> bool {
        forall|i: int| 0 <= i < self.objects@.len() ==> (#[trigger] self.objects@[i]).wf()
    }

    pub fn new() -> (w: World)
        ensures
            w.objects@ == Seq::<Sphere>::empty(),
            w.wf(),
    {
        World { objects: Vec::new() }
    }

    pub fn push(&mut self, s: Sphere)
        requires
            old(self).wf(),
            s.wf(),
        ensures
            final(self).objects@ == old(self).objects@.push(s),
            final(self).wf(),
    {
        self.objects.push(s);
    }
}

impl Hit for World {
    open spec fn hit_wf(&self) -> bool {
        self.wf()
    }

    open spec fn hit_spec(&self, r: Ray, t_min: int, t_max: int) -> Option<HitRecord> {
        scan_hit(self.objects@, r, t_min, t_max)
    }

    /// The nearest hit among all surfaces in `[t_min, t_max]`; of two at the
    /// same distance, the one earlier in order.
    fn hit(&self, r: &Ray, t_min: i64, t_max: i64) -> (res: Option<HitRecord>) {
        proof {
            lemma_world_normal_faces_ray(self.objects@, *r, t_min as int, t_max as int);
        }
        let mut tmp_rec: Option<HitRecord> = None;
        let mut closest_so_far = t_max;
        let n = self.objects.len();
        let mut i: usize = 0;
        while i < n
            invariant
                n == self.objects@.len(),
                0 <= i <= n,
                self.wf(),
                r.wf(),
                tmp_rec == scan_hit(self.objects@.take(i as int), *r, t_min as int, t_max as int),
                closest_so_far == (match tmp_rec {
                    Some(h) => h.t,
                    None => t_max,
                }),
                tmp_rec matches Some(rec) ==> rec.wf() && t_min <= rec.t <= t_max,
            decreases n - i,
        {
            let ghost prefix = self.objects@.take(i as int + 1);
            assert(prefix.drop_last() =~= self.objects@.take(i as int));
            assert(prefix.last() == self.objects@[i as int]);
            if let Some(rec) = self.objects[i].hit(r, t_min, closest_so_far) {
                if tmp_rec.is_none() || rec.t < closest_so_far {
                    closest_so_far = rec.t;
                    tmp_rec = Some(rec);
                }
            }
            i = i + 1;
        }
        assert(self.objects@.take(n as int) =~= self.objects@);
        tmp_rec
    }
}

impl OccludingHit for World {
    open spec fn occluding_spec(&self, r: Ray, lp: Point3, t_min: int, t_max: int) -> bool {
        first_block(self.objects@, r, lp, t_min, t_max)
    }

    /// Whether the first surface in order that the ray meets in `[t_min, t_max]`
    /// blocks the light at `lp`. Surfaces later in order are not consulted, even
    /// when one of them lies nearer.
    fn occluding_hit(&self, r: &Ray, lp: Point3, t_min: i64, t_max: i64) -> (res: bool) {
        let n = self.objects.len();
        let mut i: usize = 0;
        assert(self.objects@.subrange(0, n as int) =~= self.objects@);
        while i < n
            invariant
                n == self.objects@.len(),
                0 <= i <= n,
                self.wf(),
                r.wf(),
                lp.wf(),
                first_block(self.objects@, *r, lp, t_min as int, t_max as int) == first_block(
                    self.objects@.subrange(i as int, n as int),
                    *r,
                    lp,
                    t_min as int,
                    t_max as int,
                ),
            decreases n - i,
        {
            let ghost rest = self.objects@.subrange(i as int, n as int);
            assert(rest.drop_first() =~= self.objects@.subrange(i as int + 1, n as int));
            assert(rest[0] == self.objects@[i as int]);
            if let Some(rec) = self.objects[i].hit(r, t_min, t_max) {
                return rec.mat.occlusion() == 0 && r.direction().dot(lp.minus(rec.p)) > 0;
            }
            i = i + 1;
        }
        false
    }
}

/// The nearest hit in a scene has its normal turned against the ray: the dot
/// product of the ray direction and the recorded normal is never positive, and
/// is negative on a front-face hit.
pub proof fn lemma_world_normal_faces_ray(objs: Seq<Sphere>, r: Ray, t_min: int, t_max: int)
    requires
        forall|i: int| 0 <= i < objs.len() ==> (#[trigger] objs[i]).wf(),
        r.wf(),
    ensures
        scan_hit(objs, r, t_min, t_max) matches Some(rec) ==> vdot(r.dir, rec.normal) <= 0 && (
        rec.front_face ==> vdot(r.dir, rec.normal) < 0),
    decreases objs.len(),
{
    if objs.len() > 0 {
        let prefix = objs.drop_last();
        assert forall|i: int| 0 <= i < prefix.len() implies (#[trigger] prefix[i]).wf() by {
            assert(prefix[i] == objs[i]);
        }
        lemma_world_normal_faces_ray(prefix, r, t_min, t_max);
        let hi = match scan_hit(prefix, r, t_min, t_max) {
            Some(h) => h.t as int,
            None => t_max,
        };
        assert(objs.last() == objs[objs.len() - 1]);
        lemma_sphere_front_face(objs.last(), r, t_min, hi);
    }
}

} // verus!
