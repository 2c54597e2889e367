//! Fixed-point scalars: an `i64` holds a real number scaled by `FX`,
//! and every operation saturates at `LIM` in magnitude.
use vstd::prelude::*;

verus! {

/// The representation of `1.0`.
pub const FX: i64 = 65536;

/// The largest magnitude a scalar may have.
pub const LIM: i64 = 1099511627776;

pub open spec fn in_range(x: int) -> bool {
    -LIM <= x <= LIM
}

/// Saturation to `[-LIM, LIM]`.
pub open spec fn clamp(x: int) -> int {
    if x > LIM {
        LIM as int
    } else if x < -LIM {
        -LIM
    } else {
        x
    }
}

/// Division rounding toward zero, as Rust's `/` does on integers.
pub open spec fn tdiv(a: int, b: int) -> int {
    if b > 0 {
        if a >= 0 { a / b } else { -((-a) / b) }
    } else {
        if a >= 0 { -(a / (-b)) } else { (-a) / (-b) }
    }
}

/// Fixed-point product.
pub open spec fn mul_spec(a: int, b: int) -> int {
    clamp(tdiv(a * b, FX as int))
}

/// Fixed-point quotient.
pub open spec fn div_spec(a: int, b: int) -> int {
    clamp(tdiv(a * FX, b))
}

/// The fixed-point square root of `a`: the largest `r` with `r * r <= a * FX`.
pub open spec fn is_sqrt_of(r: int, a: int) -> bool {
    0 <= r && r * r <= a * FX && a * FX < (r + 1) * (r + 1)
}

pub open spec fn sqrt_spec(a: int) -> int {
    choose|r: int| is_sqrt_of(r, a)
}

pub proof fn lemma_sqrt_unique(r1: int, r2: int, a: int)
    requires
        is_sqrt_of(r1, a),
        is_sqrt_of(r2, a),
    ensures
        r1 == r2,
{
    if r1 < r2 {
        assert((r1 + 1) * (r1 + 1) <= r2 * r2) by (nonlinear_arith)
            requires
                0 <= r1 + 1 <= r2,
        ;
    } else if r2 < r1 {
        assert((r2 + 1) * (r2 + 1) <= r1 * r1) by (nonlinear_arith)
            requires
                0 <= r2 + 1 <= r1,
        ;
    }
}

pub proof fn lemma_mul_bound(a: int, b: int, m: int)
    requires
        -m <= a <= m,
        -m <= b <= m,
        m >= 0,
    ensures
        -(m * m) <= a * b <= m * m,
{
    assert(-(m * m) <= a * b <= m * m) by (nonlinear_arith)
        requires
            -m <= a <= m,
            -m <= b <= m,
            m >= 0,
    ;
}

pub proof fn lemma_tdiv_bound(a: int, b: int, m: int)
    requires
        b != 0,
        -m <= a <= m,
    ensures
        -m <= tdiv(a, b) <= m,
{
    if b > 0 {
        if a >= 0 {
            assert(a / b <= a) by (nonlinear_arith)
                requires
                    a >= 0,
                    b > 0,
            ;
        } else {
            assert((-a) / b <= -a) by (nonlinear_arith)
                requires
                    -a > 0,
                    b > 0,
            ;
        }
    } else {
        if a >= 0 {
            assert(a / (-b) <= a) by (nonlinear_arith)
                requires
                    a >= 0,
                    -b > 0,
            ;
        } else {
            assert((-a) / (-b) <= -a) by (nonlinear_arith)
                requires
                    -a > 0,
                    -b > 0,
            ;
        }
    }
}

pub proof fn lemma_mul_square_nonneg(a: int)
    ensures
        0 <= mul_spec(a, a),
{
    assert(a * a >= 0) by (nonlinear_arith);
    assert((a * a) / (FX as int) >= 0) by (nonlinear_arith)
        requires
            a * a >= 0,
    ;
}

/// Saturates a wide intermediate value.
pub fn clamp_wide(x: i128) -> (r: i64)
    ensures
        r == clamp(x as int),
{
    if x > LIM as i128 {
        LIM
    } else if x < -(LIM as i128) {
        -LIM
    } else {
        x as i64
    }
}

/// Division rounding toward zero on wide values.
pub fn tdiv_wide(a: i128, b: i128) -> (r: i128)
    requires
        b != 0,
        b != i128::MIN,
        a != i128::MIN,
    ensures
        r == tdiv(a as int, b as int),
{
    if b > 0 {
        if a >= 0 {
            a / b
        } else {
            -((-a) / b)
        }
    } else {
        if a >= 0 {
            -(a / (-b))
        } else {
            (-a) / (-b)
        }
    }
}

/// Fixed-point product, saturating.
pub fn fmul(a: i64, b: i64) -> (r: i64)
    requires
        in_range(a as int),
        in_range(b as int),
    ensures
        r == mul_spec(a as int, b as int),
        in_range(r as int),
{
    proof {
        lemma_mul_bound(a as int, b as int, LIM as int);
    }
    let p = (a as i128) * (b as i128);
    clamp_wide(tdiv_wide(p, FX as i128))
}

/// Fixed-point quotient, saturating.
pub fn fdiv(a: i64, b: i64) -> (r: i64)
    requires
        in_range(a as int),
        in_range(b as int),
        b != 0,
    ensures
        r == div_spec(a as int, b as int),
        in_range(r as int),
{
    proof {
        lemma_mul_bound(a as int, FX as int, LIM as int);
    }
    let p = (a as i128) * (FX as i128);
    clamp_wide(tdiv_wide(p, b as i128))
}

/// Fixed-point square root, rounded down.
pub fn fsqrt(a: i64) -> (r: i64)
    requires
        0 <= a <= LIM,
    ensures
        is_sqrt_of(r as int, a as int),
        r == sqrt_spec(a as int),
        0 <= r <= 268435456,
{
    let n: i128 = (a as i128) * (FX as i128);
    assert(n <= 72057594037927936);
    let mut lo: i128 = 0;
    let mut hi: i128 = 268435457;
    assert(hi * hi > 72057594037927936);
    while hi - lo > 1
        invariant
            0 <= lo < hi <= 268435457,
            lo * lo <= n,
            n < hi * hi,
            n == a * FX,
        decreases hi - lo,
    {
        let mid: i128 = lo + (hi - lo) / 2;
        assert(0 <= mid * mid <= 268435457 * 268435457) by (nonlinear_arith)
            requires
                0 <= mid <= 268435457,
        ;
        if mid * mid <= n {
            lo = mid;
        } else {
            hi = mid;
        }
    }
    proof {
        assert(hi == lo + 1);
        assert(is_sqrt_of(lo as int, a as int));
        let s = sqrt_spec(a as int);
        lemma_sqrt_unique(s, lo as int, a as int);
    }
    lo as i64
}

} // verus!
