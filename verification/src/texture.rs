//! Textures. The constant texture is evaluated exactly; the noise texture
//! carries its parameters, and its irrational evaluation lives with the
//! renderer's floating-point shading, outside the verified core.

use vstd::prelude::*;
use crate::math::{Rat, Vector3, rat_wf};

verus! {

/// A texture: colors are fixed-point RGB vectors (`UNIT` is 1.0).
pub enum Texture {
    Constant { color: Vector3 },
    Noise { scale: i64, turbulence: u32 },
}

impl Texture {
    /// The constant texture's value; a noise texture has none that the
    /// exact model can give.
    pub fn constant_value(&self) -> (r: Option<Vector3>)
        ensures
            match *self {
                Texture::Constant { color } => r == Option::Some(color),
                Texture::Noise { .. } => r is None,
            },
    {
        match self {
            Texture::Constant { color } => Option::Some(*color),
            Texture::Noise { .. } => Option::None,
        }
    }
}

/// The texel column or row that a surface coordinate selects: the
/// coordinate is scaled by the image size, floored, and clamped to the
/// image. A coordinate below zero selects the first texel; one at or past
/// the far edge selects the last.
pub open spec fn texel_coord(num: int, den: int, size: int) -> int {
    if num < 0 {
        0
    } else {
        let f = (num * size) / den;
        if f >= size {
            size - 1
        } else {
            f
        }
    }
}

/// Looks up the texel of an image-backed texture: `u` selects the column,
/// `1 - v` the row, both clamped to the image as [`texel_coord`] states.
pub fn image_texel(u: Rat, v: Rat, width: u32, height: u32) -> (r: (u32, u32))
    requires
        rat_wf(u),
        rat_wf(v),
        1 <= width <= 0x10000,
        1 <= height <= 0x10000,
        -0x1_0000_0000_0000 <= u.num <= 0x1_0000_0000_0000,
        -0x1_0000_0000_0000 <= v.num <= 0x1_0000_0000_0000,
        v.den <= 0x1_0000_0000_0000,
    ensures
        r.0 as int == texel_coord(u.num as int, u.den as int, width as int),
        r.1 as int == texel_coord(v.den - v.num, v.den as int, height as int),
        r.0 < width,
        r.1 < height,
{
    let i = scaled_floor(u.num, u.den, width);
    let j = scaled_floor(v.den - v.num, v.den, height);
    (i, j)
}

/// One clamped scaled floor, on a non-negative result.
fn scaled_floor(num: i64, den: i64, size: u32) -> (r: u32)
    requires
        0 < den,
        1 <= size <= 0x10000,
        -0x2_0000_0000_0000 <= num <= 0x2_0000_0000_0000,
    ensures
        r as int == texel_coord(num as int, den as int, size as int),
        r < size,
{
    if num < 0 {
        return 0;
    }
    proof {
        assert(0 <= (num as int) * (size as int) <= 0x2_0000_0000_0000 * 0x10000)
            by (nonlinear_arith)
            requires
                0 <= num <= 0x2_0000_0000_0000,
                0 <= size <= 0x10000,
        ;
    }
    let f = (num as u128 * size as u128) / (den as u128);
    proof {
        vstd::arithmetic::div_mod::lemma_div_nonincreasing(
            (num as int) * (size as int),
            den as int,
        );
        vstd::arithmetic::div_mod::lemma_div_pos_is_pos((num as int) * (size as int), den as int);
    }
    if f >= size as u128 {
        size - 1
    } else {
        f as u32
    }
}

} // verus!
