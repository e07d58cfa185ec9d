//! The bounding box of a rotation about the y-axis.
//!
//! The sine and cosine of the rotation angle are irrational; the renderer
//! supplies them as a fixed-point pair over a common denominator. What is
//! exact is the box the rotation's constructor caches: each of the box's
//! corners is rotated, and the result bounds every rotated corner on every
//! axis, the y-extent passing through unchanged.

use vstd::prelude::*;
use crate::math::{Vector3, vec_in, lemma_mul_bound};
use crate::aabb::AABB;
use crate::hitable::GEOM_LIMIT;

verus! {

/// `num / den` lies within `[lo, hi]`; both sides are scaled by `den`.
pub open spec fn rot_in(lo: int, hi: int, num: int, den: int) -> bool {
    lo * den <= num <= hi * den
}

/// The least of four values.
pub open spec fn min4_spec(a: int, b: int, c: int, d: int) -> int {
    let m1 = if b < a {
        b
    } else {
        a
    };
    let m2 = if c < m1 {
        c
    } else {
        m1
    };
    if d < m2 {
        d
    } else {
        m2
    }
}

/// The greatest of four values.
pub open spec fn max4_spec(a: int, b: int, c: int, d: int) -> int {
    let m1 = if b > a {
        b
    } else {
        a
    };
    let m2 = if c > m1 {
        c
    } else {
        m1
    };
    if d > m2 {
        d
    } else {
        m2
    }
}

/// The least rotated x-value over the four corners of the `[x0,x1]×[z0,z1]`
/// footprint, still scaled by the denominator.
pub open spec fn corners_min(cos_t: int, sin_t: int, x0: int, x1: int, z0: int, z1: int) -> int {
    min4_spec(
        rot_x(cos_t, sin_t, x0, z0),
        rot_x(cos_t, sin_t, x0, z1),
        rot_x(cos_t, sin_t, x1, z0),
        rot_x(cos_t, sin_t, x1, z1),
    )
}

pub open spec fn corners_max(cos_t: int, sin_t: int, x0: int, x1: int, z0: int, z1: int) -> int {
    max4_spec(
        rot_x(cos_t, sin_t, x0, z0),
        rot_x(cos_t, sin_t, x0, z1),
        rot_x(cos_t, sin_t, x1, z0),
        rot_x(cos_t, sin_t, x1, z1),
    )
}

/// The same extrema for the rotated z-values.
pub open spec fn corners_min_z(cos_t: int, sin_t: int, x0: int, x1: int, z0: int, z1: int) -> int {
    min4_spec(
        rot_z(cos_t, sin_t, x0, z0),
        rot_z(cos_t, sin_t, x0, z1),
        rot_z(cos_t, sin_t, x1, z0),
        rot_z(cos_t, sin_t, x1, z1),
    )
}

pub open spec fn corners_max_z(cos_t: int, sin_t: int, x0: int, x1: int, z0: int, z1: int) -> int {
    max4_spec(
        rot_z(cos_t, sin_t, x0, z0),
        rot_z(cos_t, sin_t, x0, z1),
        rot_z(cos_t, sin_t, x1, z0),
        rot_z(cos_t, sin_t, x1, z1),
    )
}

/// The rotated x-coordinate of a corner, scaled by the denominator.
pub open spec fn rot_x(cos_t: int, sin_t: int, x: int, z: int) -> int {
    cos_t * x + sin_t * z
}

/// The rotated z-coordinate of a corner, scaled by the denominator.
pub open spec fn rot_z(cos_t: int, sin_t: int, x: int, z: int) -> int {
    cos_t * z - sin_t * x
}

/// The floor of the quotient stays at or below the dividend when scaled
/// back.
proof fn lemma_floor_le(n: int, d: int)
    requires
        0 < d,
    ensures
        (n / d) * d <= n,
{
    vstd::arithmetic::div_mod::lemma_fundamental_div_mod(n, d);
    vstd::arithmetic::div_mod::lemma_mod_bound(n, d);
    vstd::arithmetic::mul::lemma_mul_is_commutative(n / d, d);
}

/// The negated floor of the negated quotient — the ceiling — stays at or
/// above the dividend when scaled back.
proof fn lemma_ceil_ge(n: int, d: int)
    requires
        0 < d,
    ensures
        (-((-n) / d)) * d >= n,
{
    lemma_floor_le(-n, d);
    vstd::arithmetic::mul::lemma_mul_unary_negation((-n) / d, d);
}

/// Floor division by a positive denominator, by shifting the dividend into
/// the non-negative range.
fn floor_div(n: i128, d: i64) -> (r: i64)
    requires
        0 < d <= 0x10000,
        -0x8000_0000 * (d as int) <= n <= 0x8000_0000 * (d as int),
    ensures
        r as int == (n as int) / (d as int),
        -0x8000_0000 <= r <= 0x8000_0000,
{
    let shifted = n + 0x8000_0000i128 * (d as i128);
    let q = (shifted as u128) / (d as u128);
    proof {
        vstd::arithmetic::div_mod::lemma_hoist_over_denominator(
            n as int,
            0x8000_0000,
            d as nat,
        );
        vstd::arithmetic::div_mod::lemma_div_is_ordered(
            -0x8000_0000 * (d as int),
            n as int,
            d as int,
        );
        vstd::arithmetic::div_mod::lemma_div_is_ordered(
            n as int,
            0x8000_0000 * (d as int),
            d as int,
        );
        vstd::arithmetic::div_mod::lemma_div_multiples_vanish(0x8000_0000, d as int);
        vstd::arithmetic::div_mod::lemma_div_multiples_vanish(-0x8000_0000, d as int);
        assert((d as int) * 0x8000_0000 == 0x8000_0000 * (d as int));
        assert((d as int) * (-0x8000_0000) == -0x8000_0000 * (d as int));
    }
    (q as i64) - 0x8000_0000
}

/// Ceiling division by a positive denominator.
fn ceil_div(n: i128, d: i64) -> (r: i64)
    requires
        0 < d <= 0x10000,
        -0x8000_0000 * (d as int) <= n <= 0x8000_0000 * (d as int),
    ensures
        r as int == -((-(n as int)) / (d as int)),
        -0x8000_0000 <= r <= 0x8000_0000,
{
    -floor_div(-n, d)
}

fn min4(a: i128, b: i128, c: i128, d: i128) -> (r: i128)
    ensures
        r <= a && r <= b && r <= c && r <= d,
        r == a || r == b || r == c || r == d,
{
    let mut m = a;
    if b < m {
        m = b;
    }
    if c < m {
        m = c;
    }
    if d < m {
        m = d;
    }
    m
}

fn max4(a: i128, b: i128, c: i128, d: i128) -> (r: i128)
    ensures
        r >= a && r >= b && r >= c && r >= d,
        r == a || r == b || r == c || r == d,
{
    let mut m = a;
    if b > m {
        m = b;
    }
    if c > m {
        m = c;
    }
    if d > m {
        m = d;
    }
    m
}

/// The bounding box of a box rotated about the y-axis: the eight corners
/// are rotated exactly and the per-axis extrema taken, the lower bounds
/// floored and the upper bounds raised to whole coordinates — and nothing
/// looser: each bound *is* that floored or raised extremum.
pub fn rotate_y_bbox(bbox: AABB, sin_t: i64, cos_t: i64, den: i64) -> (r: AABB)
    requires
        0 < den <= 0x10000,
        -den <= sin_t <= den,
        -den <= cos_t <= den,
        vec_in(bbox.min, GEOM_LIMIT as int),
        vec_in(bbox.max, GEOM_LIMIT as int),
    ensures
        r.min.y == bbox.min.y,
        r.max.y == bbox.max.y,
        r.min.x as int == corners_min(
            cos_t as int, sin_t as int,
            bbox.min.x as int, bbox.max.x as int, bbox.min.z as int, bbox.max.z as int,
        ) / (den as int),
        r.max.x as int == -((-corners_max(
            cos_t as int, sin_t as int,
            bbox.min.x as int, bbox.max.x as int, bbox.min.z as int, bbox.max.z as int,
        )) / (den as int)),
        r.min.z as int == corners_min_z(
            cos_t as int, sin_t as int,
            bbox.min.x as int, bbox.max.x as int, bbox.min.z as int, bbox.max.z as int,
        ) / (den as int),
        r.max.z as int == -((-corners_max_z(
            cos_t as int, sin_t as int,
            bbox.min.x as int, bbox.max.x as int, bbox.min.z as int, bbox.max.z as int,
        )) / (den as int)),
        rot_in(r.min.x as int, r.max.x as int, rot_x(cos_t as int, sin_t as int, bbox.min.x as int, bbox.min.z as int), den as int),
        rot_in(r.min.x as int, r.max.x as int, rot_x(cos_t as int, sin_t as int, bbox.min.x as int, bbox.max.z as int), den as int),
        rot_in(r.min.x as int, r.max.x as int, rot_x(cos_t as int, sin_t as int, bbox.max.x as int, bbox.min.z as int), den as int),
        rot_in(r.min.x as int, r.max.x as int, rot_x(cos_t as int, sin_t as int, bbox.max.x as int, bbox.max.z as int), den as int),
        rot_in(r.min.z as int, r.max.z as int, rot_z(cos_t as int, sin_t as int, bbox.min.x as int, bbox.min.z as int), den as int),
        rot_in(r.min.z as int, r.max.z as int, rot_z(cos_t as int, sin_t as int, bbox.min.x as int, bbox.max.z as int), den as int),
        rot_in(r.min.z as int, r.max.z as int, rot_z(cos_t as int, sin_t as int, bbox.max.x as int, bbox.min.z as int), den as int),
        rot_in(r.min.z as int, r.max.z as int, rot_z(cos_t as int, sin_t as int, bbox.max.x as int, bbox.max.z as int), den as int),
{
    proof {
        lemma_mul_bound(cos_t as int, bbox.min.x as int, den as int, GEOM_LIMIT as int);
        lemma_mul_bound(cos_t as int, bbox.max.x as int, den as int, GEOM_LIMIT as int);
        lemma_mul_bound(sin_t as int, bbox.min.x as int, den as int, GEOM_LIMIT as int);
        lemma_mul_bound(sin_t as int, bbox.max.x as int, den as int, GEOM_LIMIT as int);
        lemma_mul_bound(cos_t as int, bbox.min.z as int, den as int, GEOM_LIMIT as int);
        lemma_mul_bound(cos_t as int, bbox.max.z as int, den as int, GEOM_LIMIT as int);
        lemma_mul_bound(sin_t as int, bbox.min.z as int, den as int, GEOM_LIMIT as int);
        lemma_mul_bound(sin_t as int, bbox.max.z as int, den as int, GEOM_LIMIT as int);
    }
    let cx0 = (cos_t as i128) * (bbox.min.x as i128);
    let cx1 = (cos_t as i128) * (bbox.max.x as i128);
    let sx0 = (sin_t as i128) * (bbox.min.x as i128);
    let sx1 = (sin_t as i128) * (bbox.max.x as i128);
    let cz0 = (cos_t as i128) * (bbox.min.z as i128);
    let cz1 = (cos_t as i128) * (bbox.max.z as i128);
    let sz0 = (sin_t as i128) * (bbox.min.z as i128);
    let sz1 = (sin_t as i128) * (bbox.max.z as i128);
    let lo_x = min4(cx0 + sz0, cx0 + sz1, cx1 + sz0, cx1 + sz1);
    let hi_x = max4(cx0 + sz0, cx0 + sz1, cx1 + sz0, cx1 + sz1);
    let lo_z = min4(cz0 - sx0, cz0 - sx1, cz1 - sx0, cz1 - sx1);
    let hi_z = max4(cz0 - sx0, cz0 - sx1, cz1 - sx0, cz1 - sx1);
    let min_x = floor_div(lo_x, den);
    let max_x = ceil_div(hi_x, den);
    let min_z = floor_div(lo_z, den);
    let max_z = ceil_div(hi_z, den);
    proof {
        lemma_floor_le(lo_x as int, den as int);
        lemma_ceil_ge(hi_x as int, den as int);
        lemma_floor_le(lo_z as int, den as int);
        lemma_ceil_ge(hi_z as int, den as int);
    }
    AABB::new(
        Vector3::new(min_x, bbox.min.y, min_z),
        Vector3::new(max_x, bbox.max.y, max_z),
    )
}

} // verus!
