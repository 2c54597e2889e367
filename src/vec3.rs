//! Three-component fixed-point vectors, used for points, directions and colors.
use vstd::prelude::*;
use crate::fixed::{
    clamp, clamp_wide, div_spec, fdiv, fmul, fsqrt, in_range, lemma_mul_bound, mul_spec, sqrt_spec,
    tdiv, tdiv_wide, FX, LIM,
};

verus! {

#[derive(Clone, Copy, Debug, PartialEq, Eq, Structural)]
pub struct Vec3 {
    pub x: i64,
    pub y: i64,
    pub z: i64,
}

pub type Point3 = Vec3;

pub type Color = Vec3;

impl Vec3 {
    /// Every component lies within the saturation bound.
    pub open spec fn wf(self) -> bool {
        in_range(self.x as int) && in_range(self.y as int) && in_range(self.z as int)
    }

    /// Builds a vector, saturating each component.
    pub fn new(x: i64, y: i64, z: i64) -> (r: Vec3)
        ensures
            r == vec_of(clamp(x as int), clamp(y as int), clamp(z as int)),
            r.wf(),
    {
        Vec3 { x: clamp_wide(x as i128), y: clamp_wide(y as i128), z: clamp_wide(z as i128) }
    }

    pub fn zero() -> (r: Vec3)
        ensures
            r == vec_of(0, 0, 0),
            r.wf(),
    {
        Vec3 { x: 0, y: 0, z: 0 }
    }

    pub fn plus(self, o: Vec3) -> (r: Vec3)
        requires
            self.wf(),
            o.wf(),
        ensures
            r == vplus(self, o),
            r.wf(),
    {
        Vec3 {
            x: clamp_wide(self.x as i128 + o.x as i128),
            y: clamp_wide(self.y as i128 + o.y as i128),
            z: clamp_wide(self.z as i128 + o.z as i128),
        }
    }

    pub fn minus(self, o: Vec3) -> (r: Vec3)
        requires
            self.wf(),
            o.wf(),
        ensures
            r == vminus(self, o),
            r.wf(),
    {
        Vec3 {
            x: clamp_wide(self.x as i128 - o.x as i128),
            y: clamp_wide(self.y as i128 - o.y as i128),
            z: clamp_wide(self.z as i128 - o.z as i128),
        }
    }

    pub fn neg(self) -> (r: Vec3)
        requires
            self.wf(),
        ensures
            r == vneg(self),
            r.wf(),
    {
        Vec3 { x: -self.x, y: -self.y, z: -self.z }
    }

    /// Multiplies every component by the scalar `k`.
    pub fn scale(self, k: i64) -> (r: Vec3)
        requires
            self.wf(),
            in_range(k as int),
        ensures
            r == vscale(self, k as int),
            r.wf(),
    {
        Vec3 { x: fmul(self.x, k), y: fmul(self.y, k), z: fmul(self.z, k) }
    }

    /// Component-wise product, used to filter one color by another.
    pub fn mul_elem(self, o: Vec3) -> (r: Vec3)
        requires
            self.wf(),
            o.wf(),
        ensures
            r == vmul(self, o),
            r.wf(),
    {
        Vec3 { x: fmul(self.x, o.x), y: fmul(self.y, o.y), z: fmul(self.z, o.z) }
    }

    /// Divides every component by the scalar `k`.
    pub fn div(self, k: i64) -> (r: Vec3)
        requires
            self.wf(),
            in_range(k as int),
            k != 0,
        ensures
            r == vdiv(self, k as int),
            r.wf(),
    {
        Vec3 { x: fdiv(self.x, k), y: fdiv(self.y, k), z: fdiv(self.z, k) }
    }

    pub fn dot(self, o: Vec3) -> (r: i64)
        requires
            self.wf(),
            o.wf(),
        ensures
            r == vdot(self, o),
            in_range(r as int),
    {
        proof {
            lemma_mul_bound(self.x as int, o.x as int, LIM as int);
            lemma_mul_bound(self.y as int, o.y as int, LIM as int);
            lemma_mul_bound(self.z as int, o.z as int, LIM as int);
        }
        let s = (self.x as i128) * (o.x as i128) + (self.y as i128) * (o.y as i128) + (self.z
            as i128) * (o.z as i128);
        clamp_wide(tdiv_wide(s, FX as i128))
    }

    pub fn cross(self, o: Vec3) -> (r: Vec3)
        requires
            self.wf(),
            o.wf(),
        ensures
            r == vcross(self, o),
            r.wf(),
    {
        proof {
            lemma_mul_bound(self.y as int, o.z as int, LIM as int);
            lemma_mul_bound(self.z as int, o.y as int, LIM as int);
            lemma_mul_bound(self.z as int, o.x as int, LIM as int);
            lemma_mul_bound(self.x as int, o.z as int, LIM as int);
            lemma_mul_bound(self.x as int, o.y as int, LIM as int);
            lemma_mul_bound(self.y as int, o.x as int, LIM as int);
        }
        let cx = (self.y as i128) * (o.z as i128) - (self.z as i128) * (o.y as i128);
        let cy = (self.z as i128) * (o.x as i128) - (self.x as i128) * (o.z as i128);
        let cz = (self.x as i128) * (o.y as i128) - (self.y as i128) * (o.x as i128);
        Vec3 {
            x: clamp_wide(tdiv_wide(cx, FX as i128)),
            y: clamp_wide(tdiv_wide(cy, FX as i128)),
            z: clamp_wide(tdiv_wide(cz, FX as i128)),
        }
    }

    pub fn length_squared(self) -> (r: i64)
        requires
            self.wf(),
        ensures
            r == vdot(self, self),
            0 <= r <= LIM,
    {
        proof {
            lemma_dot_self_nonneg(self);
        }
        self.dot(self)
    }

    pub fn length(self) -> (r: i64)
        requires
            self.wf(),
        ensures
            r == vlength(self),
            0 <= r <= LIM,
    {
        let l = self.length_squared();
        fsqrt(l)
    }

    /// The vector scaled to unit length; the zero vector stays as it is.
    pub fn normalized(self) -> (r: Vec3)
        requires
            self.wf(),
        ensures
            r == vnormalized(self),
            r.wf(),
    {
        let l = self.length();
        if l == 0 {
            self
        } else {
            self.div(l)
        }
    }

    /// True when no component reaches the smallest representable magnitude.
    pub fn near_zero(self) -> (r: bool)
        ensures
            r == (self == vec_of(0, 0, 0)),
    {
        self.x == 0 && self.y == 0 && self.z == 0
    }

    /// Mirror image of `self` about the plane with normal `n`.
    pub fn reflect(self, n: Vec3) -> (r: Vec3)
        requires
            self.wf(),
            n.wf(),
        ensures
            r == vreflect(self, n),
            r.wf(),
    {
        let d = self.dot(n);
        let k = clamp_wide(2 * (d as i128));
        self.minus(n.scale(k))
    }

    /// Direction of `self` after refraction through a surface with normal `n`,
    /// where `ratio` is the ratio of the refractive indices.
    pub fn refract(self, n: Vec3, ratio: i64) -> (r: Vec3)
        requires
            self.wf(),
            n.wf(),
            in_range(ratio as int),
        ensures
            r == vrefract(self, n, ratio as int),
            r.wf(),
    {
        let c = self.neg().dot(n);
        let cos_theta = if c < FX {
            c
        } else {
            FX
        };
        let perp = self.plus(n.scale(cos_theta)).scale(ratio);
        let pl = perp.length_squared();
        let rest = if FX >= pl {
            FX - pl
        } else {
            pl - FX
        };
        let k = fsqrt(rest);
        let parallel = n.scale(-k);
        perp.plus(parallel)
    }
}

pub open spec fn vec_of(x: int, y: int, z: int) -> Vec3 {
    Vec3 { x: x as i64, y: y as i64, z: z as i64 }
}

pub open spec fn vplus(a: Vec3, b: Vec3) -> Vec3 {
    vec_of(clamp(a.x + b.x), clamp(a.y + b.y), clamp(a.z + b.z))
}

pub open spec fn vminus(a: Vec3, b: Vec3) -> Vec3 {
    vec_of(clamp(a.x - b.x), clamp(a.y - b.y), clamp(a.z - b.z))
}

pub open spec fn vneg(a: Vec3) -> Vec3 {
    vec_of(-a.x, -a.y, -a.z)
}

pub open spec fn vscale(a: Vec3, k: int) -> Vec3 {
    vec_of(mul_spec(a.x as int, k), mul_spec(a.y as int, k), mul_spec(a.z as int, k))
}

pub open spec fn vmul(a: Vec3, b: Vec3) -> Vec3 {
    vec_of(mul_spec(a.x as int, b.x as int), mul_spec(a.y as int, b.y as int), mul_spec(a.z as int, b.z as int))
}

pub open spec fn vdiv(a: Vec3, k: int) -> Vec3 {
    vec_of(div_spec(a.x as int, k), div_spec(a.y as int, k), div_spec(a.z as int, k))
}

/// The dot product before rescaling.
pub open spec fn dot_exact(a: Vec3, b: Vec3) -> int {
    a.x * b.x + a.y * b.y + a.z * b.z
}

pub open spec fn vdot(a: Vec3, b: Vec3) -> int {
    clamp(tdiv(dot_exact(a, b), FX as int))
}

pub open spec fn vcross(a: Vec3, b: Vec3) -> Vec3 {
    vec_of(
        clamp(tdiv(a.y * b.z - a.z * b.y, FX as int)),
        clamp(tdiv(a.z * b.x - a.x * b.z, FX as int)),
        clamp(tdiv(a.x * b.y - a.y * b.x, FX as int)),
    )
}

pub open spec fn vlength(a: Vec3) -> int {
    sqrt_spec(vdot(a, a))
}

pub open spec fn vnormalized(a: Vec3) -> Vec3 {
    if vlength(a) == 0 {
        a
    } else {
        vdiv(a, vlength(a))
    }
}

pub open spec fn vreflect(v: Vec3, n: Vec3) -> Vec3 {
    vminus(v, vscale(n, clamp(2 * vdot(v, n))))
}

pub open spec fn vrefract(uv: Vec3, n: Vec3, ratio: int) -> Vec3 {
    let c = vdot(vneg(uv), n);
    let cos_theta = if c < FX { c } else { FX as int };
    let perp = vscale(vplus(uv, vscale(n, cos_theta)), ratio);
    let pl = vdot(perp, perp);
    let rest = if FX >= pl { FX - pl } else { pl - FX };
    vplus(perp, vscale(n, -sqrt_spec(rest)))
}

pub proof fn lemma_dot_self_nonneg(a: Vec3)
    requires
        a.wf(),
    ensures
        0 <= vdot(a, a) <= LIM,
{
    assert(0 <= dot_exact(a, a)) by (nonlinear_arith)
        requires
            dot_exact(a, a) == a.x * a.x + a.y * a.y + a.z * a.z,
    ;
    assert(tdiv(dot_exact(a, a), FX as int) >= 0) by (nonlinear_arith)
        requires
            dot_exact(a, a) >= 0,
            tdiv(dot_exact(a, a), FX as int) == dot_exact(a, a) / (FX as int),
    ;
}

pub proof fn lemma_dot_neg(a: Vec3, b: Vec3)
    requires
        b.wf(),
    ensures
        vdot(a, vneg(b)) == -vdot(a, b),
{
    assert(dot_exact(a, vneg(b)) == -dot_exact(a, b)) by (nonlinear_arith)
        requires
            vneg(b).x == -b.x,
            vneg(b).y == -b.y,
            vneg(b).z == -b.z,
    ;
}

/// The unit normal along axis `axis` (0, 1 or 2), pointing the way `sign` says.
pub open spec fn axis_normal(axis: int, sign: bool) -> Vec3 {
    let u: int = if sign { FX as int } else { -FX };
    if axis == 0 {
        vec_of(u, 0, 0)
    } else if axis == 1 {
        vec_of(0, u, 0)
    } else {
        vec_of(0, 0, u)
    }
}

/// Reflection about a unit normal keeps the length of the incident vector and
/// negates its component along the normal. Stated for the unit normals along
/// the axes, on which the fixed-point products are exact, and for an incident
/// vector whose doubled components stay within the saturation bound.
pub proof fn lemma_reflect_identity(d: Vec3, axis: int, sign: bool)
    requires
        0 <= axis < 3,
        -LIM / 2 <= d.x <= LIM / 2,
        -LIM / 2 <= d.y <= LIM / 2,
        -LIM / 2 <= d.z <= LIM / 2,
    ensures
        vdot(vreflect(d, axis_normal(axis, sign)), vreflect(d, axis_normal(axis, sign))) == vdot(d, d),
        vlength(vreflect(d, axis_normal(axis, sign))) == vlength(d),
        vdot(vreflect(d, axis_normal(axis, sign)), axis_normal(axis, sign)) == -vdot(d, axis_normal(axis, sign)),
{
    let n = axis_normal(axis, sign);
    let u: int = if sign { FX as int } else { -FX };
    let c: int = if axis == 0 { d.x as int } else if axis == 1 { d.y as int } else { d.z as int };
    let dn = if sign { c } else { -c };
    assert(n.x == (if axis == 0 { u } else { 0 }));
    assert(n.y == (if axis == 1 { u } else { 0 }));
    assert(n.z == (if axis == 2 { u } else { 0 }));
    assert(dot_exact(d, n) == c * u) by (nonlinear_arith)
        requires
            n.x == (if axis == 0 { u } else { 0 }),
            n.y == (if axis == 1 { u } else { 0 }),
            n.z == (if axis == 2 { u } else { 0 }),
            c == (if axis == 0 { d.x as int } else if axis == 1 { d.y as int } else { d.z as int }),
            dot_exact(d, n) == d.x * n.x + d.y * n.y + d.z * n.z,
            0 <= axis < 3,
    ;
    assert(c * u == dn * FX) by (nonlinear_arith)
        requires
            u == (if sign { FX as int } else { -FX }),
            dn == (if sign { c } else { -c }),
    ;
    assert(tdiv(dn * FX, FX as int) == dn) by (nonlinear_arith)
        requires
            tdiv(dn * FX, FX as int) == (if dn * FX >= 0 { (dn * FX) / (FX as int) } else { -((-(dn * FX)) / (FX as int)) }),
    ;
    assert(vdot(d, n) == dn);
    let k = 2 * dn;
    assert(u * k == (2 * c) * FX) by (nonlinear_arith)
        requires
            u == (if sign { FX as int } else { -FX }),
            dn == (if sign { c } else { -c }),
            k == 2 * dn,
    ;
    assert(tdiv((2 * c) * FX, FX as int) == 2 * c) by (nonlinear_arith)
        requires
            tdiv((2 * c) * FX, FX as int) == (if (2 * c) * FX >= 0 { ((2 * c) * FX) / (FX as int) } else { -((-((2 * c) * FX)) / (FX as int)) }),
    ;
    assert(mul_spec(0, k) == 0);
    assert(mul_spec(u, k) == 2 * c) by {
        assert(u * k == (2 * c) * FX);
    }
    let r = vreflect(d, n);
    let ex = if axis == 0 { -d.x } else { d.x as int };
    let ey = if axis == 1 { -d.y } else { d.y as int };
    let ez = if axis == 2 { -d.z } else { d.z as int };
    assert(r == vec_of(ex, ey, ez));
    assert(dot_exact(r, r) == dot_exact(d, d)) by (nonlinear_arith)
        requires
            r.x == ex && r.y == ey && r.z == ez,
            ex == d.x || ex == -d.x,
            ey == d.y || ey == -d.y,
            ez == d.z || ez == -d.z,
    ;
    let rc: int = if axis == 0 { r.x as int } else if axis == 1 { r.y as int } else { r.z as int };
    assert(rc == -c);
    assert(dot_exact(r, n) == rc * u) by (nonlinear_arith)
        requires
            n.x == (if axis == 0 { u } else { 0 }),
            n.y == (if axis == 1 { u } else { 0 }),
            n.z == (if axis == 2 { u } else { 0 }),
            rc == (if axis == 0 { r.x as int } else if axis == 1 { r.y as int } else { r.z as int }),
            dot_exact(r, n) == r.x * n.x + r.y * n.y + r.z * n.z,
            0 <= axis < 3,
    ;
    assert(rc * u == (-dn) * FX) by (nonlinear_arith)
        requires
            u == (if sign { FX as int } else { -FX }),
            dn == (if sign { c } else { -c }),
            rc == -c,
    ;
    assert(tdiv((-dn) * FX, FX as int) == -dn) by (nonlinear_arith)
        requires
            tdiv((-dn) * FX, FX as int) == (if (-dn) * FX >= 0 { ((-dn) * FX) / (FX as int) } else { -((-((-dn) * FX)) / (FX as int)) }),
    ;
}

} // verus!
