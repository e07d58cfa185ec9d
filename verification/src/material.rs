//! Materials. The scattering itself samples irrational distributions and
//! lives with the renderer; what the verified core states is the material
//! data, the importance-sampling flag, and the front-face test that decides
//! whether a diffuse light emits toward a ray.

use vstd::prelude::*;
use crate::math::{Vector3, vec_in};
use crate::hitable::DIR_LIMIT;

verus! {

/// The fixed-point value of one.
pub const UNIT: i64 = 65536;

/// A surface or volume material. Texture fields index the scene's texture
/// table; scalar fields are fixed-point ([`UNIT`] is 1.0).
pub enum Material {
    Lambertian { texture: usize },
    Metal { albedo: Vector3, fuzz: i64 },
    Dielectric { ref_index: i64 },
    DiffuseLight { texture: usize },
    Isotropic { texture: usize },
    NoMaterial,
}

proof fn lemma_unit_dot_bound(n: int, d: int, dd: int)
    by (nonlinear_arith)
    requires
        -1 <= n <= 1,
        0 <= dd,
        -dd <= d <= dd,
    ensures
        -dd <= n * d <= dd,
{
}

impl Material {
    /// A metal's fuzz is clamped to one.
    pub fn metal(albedo: Vector3, fuzz: i64) -> (r: Material)
        ensures
            r matches Material::Metal { albedo: a, fuzz: f } && a == albedo && f == (
            if fuzz < UNIT {
                fuzz
            } else {
                UNIT
            }),
    {
        let fuzz = if fuzz < UNIT {
            fuzz
        } else {
            UNIT
        };
        Material::Metal { albedo, fuzz }
    }

    /// Whether the material should be importance-sampled: true exactly for
    /// diffuse lights.
    pub fn sample(&self) -> (r: bool)
        ensures
            r == (*self is DiffuseLight),
    {
        match self {
            Material::DiffuseLight { .. } => true,
            _ => false,
        }
    }

    /// A diffuse light emits toward the ray only when the ray hits its
    /// front face: the normal must point against the ray's direction.
    /// Everything else emits black.
    pub fn emits(&self, normal: &Vector3, direction: &Vector3) -> (r: bool)
        requires
            vec_in(*normal, 1),
            vec_in(*direction, DIR_LIMIT as int),
        ensures
            r == (*self is DiffuseLight && (normal.x as int) * (direction.x as int) + (normal.y
                as int) * (direction.y as int) + (normal.z as int) * (direction.z as int) < 0),
    {
        match self {
            Material::DiffuseLight { .. } => {
                proof {
                    lemma_unit_dot_bound(normal.x as int, direction.x as int, DIR_LIMIT as int);
                    lemma_unit_dot_bound(normal.y as int, direction.y as int, DIR_LIMIT as int);
                    lemma_unit_dot_bound(normal.z as int, direction.z as int, DIR_LIMIT as int);
                }
                let dot = (normal.x as i128) * (direction.x as i128) + (normal.y as i128) * (
                direction.y as i128) + (normal.z as i128) * (direction.z as i128);
                dot < 0
            },
            _ => false,
        }
    }
}

} // verus!
