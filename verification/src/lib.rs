//! A Monte-Carlo path tracer core, modelled over exact integer and rational
//! arithmetic so that the geometric logic can be verified.
//!
//! Scene coordinates are fixed-point integers (see [`UNIT`]); ray parameters
//! are exact rationals. The slab test, the primitive intersections, the
//! closest-hit search and the bounding-volume hierarchy are verified against
//! exact mathematical contracts.

use vstd::prelude::*;

mod aabb;
mod bvh;
mod hitable;
mod integrator;
mod material;
mod math;
mod pdf;
mod perlin;
mod random;
mod rendertile;
mod settings;
mod texture;
mod transform;
mod volume;
mod world;

pub use settings::Settings;
pub use math::{Rat, Vector3, Ray, RPoint};
pub use aabb::{AABB, lemma_aabb_hit_monotone};
pub use hitable::{Hitable, HitRecord, lemma_translate_compose, lemma_hit_post_agree, lemma_hit_material_below};
pub use world::lemma_world_hit_material;
pub use bvh::{BVH, random_axis, lemma_bvh_matches_list};
pub use material::{Material, UNIT};
pub use texture::{Texture, image_texel};
pub use pdf::{MixturePDF, lemma_mixture_value, PDF_LIMIT};
pub use integrator::{RadianceStep, radiance_step, MAX_DEPTH};
pub use perlin::{Perlin, TABLE_SIZE};
pub use volume::medium_span;
pub use transform::rotate_y_bbox;
pub use rendertile::{RenderTile, make_tiles, blit_tile, flip_vertical, IMAGE_LIMIT};
pub use world::{World, AmbientColor, AmbientDesc, AmbientKind, Cube, resolve_ambient, SceneError, FieldId, TextureKind, TextureDesc, MaterialKind, MaterialDesc, ObjectKind, ObjectDesc, validate_scene, COLOR_LIMIT, SCENE_LIMIT};

