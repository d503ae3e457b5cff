//! Vector and scalar math: dot product, magnitude, projection, and the
//! quadratic-root solver used by the exact collision-time computation.
//!
//! A `Vec2` holds two fixed-point scalars (see `crate::fixed`). Raw dot
//! products of two vectors carry the scale twice, so `vector_dot_product`
//! divides one scale factor back out, while `vector_project` and the
//! quadratic roots are single exact divisions of raw integer terms.

use vstd::prelude::*;

use crate::fixed::{
    abs_int, div_sat, div_tz, isqrt_spec, isqrt_u128, sat64, FX_LIM, FX_SCALE,
};

verus! {

/// A two-component vector of fixed-point scalars.
#[derive(Clone, Copy, Debug, PartialEq, Eq, Structural)]
pub struct Vec2 {
    pub x: i64,
    pub y: i64,
}

impl Vec2 {
    pub fn new(x: i64, y: i64) -> (r: Vec2)
        ensures
            r.x == x,
            r.y == y,
    {
        Vec2 { x, y }
    }
}

/// Both components within the range the physics functions accept.
pub open spec fn vec2_in_range(v: Vec2) -> bool {
    -FX_LIM <= v.x <= FX_LIM && -FX_LIM <= v.y <= FX_LIM
}

/// Raw dot product: the scale factor appears twice in this value.
pub open spec fn dot_int(a: Vec2, b: Vec2) -> int {
    a.x * b.x + a.y * b.y
}

/// The product of two in-range scalars is at most 2^62 in magnitude.
pub proof fn lemma_range_mul(a: int, b: int)
    by (nonlinear_arith)
    requires
        abs_int(a) <= FX_LIM,
        abs_int(b) <= FX_LIM,
    ensures
        abs_int(a * b) <= 0x4000000000000000,
{
}

/// A dot product of in-range vectors stays within 2^63, and each of its two
/// summands within 2^62.
pub proof fn lemma_dot_bound(a: Vec2, b: Vec2)
    requires
        vec2_in_range(a),
        vec2_in_range(b),
    ensures
        abs_int(a.x * b.x) <= 0x4000000000000000,
        abs_int(a.y * b.y) <= 0x4000000000000000,
        abs_int(dot_int(a, b)) <= 0x8000000000000000,
{
    lemma_range_mul(a.x as int, b.x as int);
    lemma_range_mul(a.y as int, b.y as int);
}

/// A vector's dot product with itself is non-negative.
pub proof fn lemma_dot_self_nonneg(v: Vec2)
    by (nonlinear_arith)
    ensures
        dot_int(v, v) >= 0,
        v.x != 0 || v.y != 0 ==> dot_int(v, v) > 0,
{
}

/// Fixed-point dot product of two vectors.
pub fn vector_dot_product(v1: Vec2, v2: Vec2) -> (r: i64)
    requires
        vec2_in_range(v1),
        vec2_in_range(v2),
    ensures
        r as int == div_tz(dot_int(v1, v2), FX_SCALE as int),
{
    proof {
        lemma_dot_bound(v1, v2);
    }
    let num: i128 = (v1.x as i128) * (v2.x as i128) + (v1.y as i128) * (v2.y as i128);
    let r = div_sat(num, FX_SCALE as i128);
    proof {
        assert(abs_int(div_tz(num as int, FX_SCALE as int)) <= abs_int(num as int));
    }
    r
}

/// Fixed-point magnitude of a vector: the integer square root of the raw
/// dot product of the vector with itself.
pub fn vector_magnitude(v: Vec2) -> (r: i64)
    requires
        vec2_in_range(v),
    ensures
        r as nat == isqrt_spec(dot_int(v, v) as nat),
        0 <= r < 0x100000000,
{
    proof {
        lemma_dot_bound(v, v);
        lemma_dot_self_nonneg(v);
    }
    let m: i128 = (v.x as i128) * (v.x as i128) + (v.y as i128) * (v.y as i128);
    let root: u128 = isqrt_u128(m as u128);
    proof {
        assert(root < 0x100000000) by (nonlinear_arith)
            requires
                root * root <= 0x8000000000000000u128,
        ;
    }
    root as i64
}

/// `v1` projected onto `v2`, each component a single exact division of raw
/// integer terms, rounded toward zero and saturated.
pub fn vector_project(v1: Vec2, v2: Vec2) -> (r: Vec2)
    requires
        vec2_in_range(v1),
        vec2_in_range(v2),
        v2.x != 0 || v2.y != 0,
    ensures
        r.x as int == sat64(div_tz(dot_int(v1, v2) * v2.x, dot_int(v2, v2))),
        r.y as int == sat64(div_tz(dot_int(v1, v2) * v2.y, dot_int(v2, v2))),
{
    proof {
        lemma_dot_bound(v1, v2);
        lemma_dot_self_nonneg(v2);
        lemma_dot_bound(v2, v2);
    }
    let num: i128 = (v1.x as i128) * (v2.x as i128) + (v1.y as i128) * (v2.y as i128);
    let den: i128 = (v2.x as i128) * (v2.x as i128) + (v2.y as i128) * (v2.y as i128);
    proof {
        assert(abs_int(num as int * v2.x as int) < i128::MAX && abs_int(
            num as int * v2.y as int,
        ) < i128::MAX) by (nonlinear_arith)
            requires
                abs_int(num as int) <= 0x8000000000000000,
                abs_int(v2.x as int) <= FX_LIM,
                abs_int(v2.y as int) <= FX_LIM,
        ;
    }
    let rx = div_sat(num * (v2.x as i128), den);
    let ry = div_sat(num * (v2.y as i128), den);
    Vec2 { x: rx, y: ry }
}

/// Discriminant of `a*t^2 + b*t + c`, over raw values.
pub open spec fn quad_disc(a: int, b: int, c: int) -> int {
    b * b - 4 * a * c
}

/// The root `(-b + sqrt(disc)) / (2a)` as a fixed-point value.
pub open spec fn quad_root_pos(a: int, b: int, c: int) -> int {
    sat64(div_tz((isqrt_spec(quad_disc(a, b, c) as nat) - b) * FX_SCALE, 2 * a))
}

/// The root `(-b - sqrt(disc)) / (2a)` as a fixed-point value.
pub open spec fn quad_root_neg(a: int, b: int, c: int) -> int {
    sat64(div_tz((-isqrt_spec(quad_disc(a, b, c) as nat) - b) * FX_SCALE, 2 * a))
}

/// Solve `a*t^2 + b*t + c = 0` by the standard formula. Returns the two
/// roots, or `None` when the discriminant is negative (no real root; the
/// defined fallback in place of a propagating non-number).
pub fn quadratic_formula(a: i64, b: i64, c: i64) -> (r: Option<(i64, i64)>)
    requires
        a != 0,
        abs_int(a as int) <= 4 * FX_LIM,
        abs_int(b as int) <= 4 * FX_LIM,
        abs_int(c as int) <= 4 * FX_LIM,
    ensures
        r is Some <==> quad_disc(a as int, b as int, c as int) >= 0,
        r matches Some(roots) ==> roots.0 as int == quad_root_pos(a as int, b as int, c as int)
            && roots.1 as int == quad_root_neg(a as int, b as int, c as int),
{
    proof {
        assert(abs_int(b as int * b as int) <= 0x40000000000000000
            && abs_int(4 * (a as int) * (c as int)) <= 0x100000000000000000) by (nonlinear_arith)
            requires
                abs_int(a as int) <= 4 * FX_LIM,
                abs_int(b as int) <= 4 * FX_LIM,
                abs_int(c as int) <= 4 * FX_LIM,
        ;
    }
    let disc: i128 = (b as i128) * (b as i128) - 4 * (a as i128) * (c as i128);
    if disc < 0 {
        return None;
    }
    let root: u128 = isqrt_u128(disc as u128);
    proof {
        assert(root <= 0x800000000u128) by (nonlinear_arith)
            requires
                root * root <= 0x140000000000000000u128,
        ;
    }
    let num_pos: i128 = (root as i128) - (b as i128);
    let num_neg: i128 = -(root as i128) - (b as i128);
    let den: i128 = 2 * (a as i128);
    proof {
        assert(abs_int(num_pos as int * FX_SCALE as int) <= 0x100000000000000 && abs_int(
            num_neg as int * FX_SCALE as int,
        ) <= 0x100000000000000) by (nonlinear_arith)
            requires
                abs_int(num_pos as int) <= 0x1000000000,
                abs_int(num_neg as int) <= 0x1000000000,
        ;
    }
    let t_pos = div_sat(num_pos * (FX_SCALE as i128), den);
    let t_neg = div_sat(num_neg * (FX_SCALE as i128), den);
    Some((t_pos, t_neg))
}

} // verus!
