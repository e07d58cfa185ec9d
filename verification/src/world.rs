//! The scene: validation of scene descriptors, construction of the world,
//! and the world-level queries.
//!
//! The renderer's scene file is parsed outside the library into plain
//! descriptors; every decision about them is made here: which descriptor
//! kinds exist, which fields each kind requires, which values are within the
//! exact model's coordinate budget, and what the world built from them
//! looks like. The exact intersection model covers the axis-aligned
//! rectangle family (rectangles, flipped rectangles, boxes, translations,
//! lists); descriptors outside it are refused with a distinct error.

use vstd::prelude::*;
use crate::math::{Rat, Ray, Vector3, rat_wf, vec_in, lemma_mul_bound};
use crate::hitable::{Hitable, HitRecord, hwf, hit_post, mats_below, lemma_hit_material_below,
    vabs_max, GEOM_LIMIT, ORIGIN_LIMIT, DIR_LIMIT};
use crate::material::{Material, UNIT};
use crate::texture::Texture;
use crate::aabb::AABB;

verus! {

/// Scene coordinates must stay within this bound, half the geometry budget,
/// so that a translated box still fits.
pub const SCENE_LIMIT: i64 = 0x2000_0000;

/// A field of a scene descriptor, named in configuration errors.
#[derive(Clone, Copy, Debug, PartialEq, Eq, Structural)]
pub enum FieldId {
    Position,
    Radius,
    Bounds,
    K,
    CubeMin,
    CubeMax,
    Translation,
    V0,
    V1,
    V2,
    TextureRef,
    RefIndex,
    Albedo,
    Fuzz,
    Color,
    Scale,
    Turbulence,
    MaterialRef,
}

/// A configuration error: the index names the offending object descriptor.
#[derive(Clone, Copy, Debug, PartialEq, Eq, Structural)]
pub enum SceneError {
    UnknownObjectKind { index: usize },
    UnknownMaterialKind { index: usize },
    UnknownTextureKind { index: usize },
    MissingField { index: usize, field: FieldId },
    InvalidField { index: usize, field: FieldId },
    UnsupportedObject { index: usize },
}

#[derive(Clone, Copy, Debug, PartialEq, Eq, Structural)]
pub enum TextureKind {
    Constant,
    Perlin,
    Unknown,
}

/// A texture descriptor as the scene file gives it.
pub struct TextureDesc {
    pub kind: TextureKind,
    pub color: Option<Vector3>,
    pub scale: Option<i64>,
    pub turbulence: Option<u32>,
}

#[derive(Clone, Copy, Debug, PartialEq, Eq, Structural)]
pub enum MaterialKind {
    Lambertian,
    Dielectric,
    Metal,
    DiffuseLight,
    Unknown,
}

/// A material descriptor, with its texture reference already resolved.
pub struct MaterialDesc {
    pub kind: MaterialKind,
    pub texture: Option<TextureDesc>,
    pub ref_index: Option<i64>,
    pub albedo: Option<Vector3>,
    pub fuzz: Option<i64>,
}

#[derive(Clone, Copy, Debug, PartialEq, Eq, Structural)]
pub enum ObjectKind {
    Sphere,
    XYRect,
    XZRect,
    YZRect,
    Cube,
    Triangle,
    Unknown,
}

/// An object descriptor, with its material already resolved.
pub struct ObjectDesc {
    pub kind: ObjectKind,
    pub material: Option<MaterialDesc>,
    pub position: Option<Vector3>,
    pub radius: Option<i64>,
    pub bounds: Option<(i64, i64, i64, i64)>,
    pub k: Option<i64>,
    pub flip: bool,
    pub cube_min: Option<Vector3>,
    pub cube_max: Option<Vector3>,
    pub rotate_y: Option<i64>,
    pub translation: Option<Vector3>,
    pub v0: Option<Vector3>,
    pub v1: Option<Vector3>,
    pub v2: Option<Vector3>,
}

/// The first configuration error of a texture descriptor, if any.
pub open spec fn texture_error(t: TextureDesc, i: int) -> Option<SceneError> {
    match t.kind {
        TextureKind::Constant => if t.color is None {
            Option::Some(SceneError::MissingField { index: i as usize, field: FieldId::Color })
        } else {
            Option::None
        },
        TextureKind::Perlin => if t.scale is None {
            Option::Some(SceneError::MissingField { index: i as usize, field: FieldId::Scale })
        } else if t.turbulence is None {
            Option::Some(
                SceneError::MissingField { index: i as usize, field: FieldId::Turbulence },
            )
        } else {
            Option::None
        },
        TextureKind::Unknown => Option::Some(
            SceneError::UnknownTextureKind { index: i as usize },
        ),
    }
}

/// The first configuration error of a material descriptor, if any.
pub open spec fn material_error(m: MaterialDesc, i: int) -> Option<SceneError> {
    match m.kind {
        MaterialKind::Lambertian | MaterialKind::DiffuseLight => match m.texture {
            Option::Some(t) => texture_error(t, i),
            Option::None => Option::Some(
                SceneError::MissingField { index: i as usize, field: FieldId::TextureRef },
            ),
        },
        MaterialKind::Dielectric => if m.ref_index is None {
            Option::Some(SceneError::MissingField { index: i as usize, field: FieldId::RefIndex })
        } else {
            Option::None
        },
        MaterialKind::Metal => if m.albedo is None {
            Option::Some(SceneError::MissingField { index: i as usize, field: FieldId::Albedo })
        } else if m.fuzz is None {
            Option::Some(SceneError::MissingField { index: i as usize, field: FieldId::Fuzz })
        } else {
            Option::None
        },
        MaterialKind::Unknown => Option::Some(
            SceneError::UnknownMaterialKind { index: i as usize },
        ),
    }
}

/// A coordinate within the scene budget.
pub open spec fn coord_ok(c: int) -> bool {
    -SCENE_LIMIT as int <= c <= SCENE_LIMIT as int
}

/// The first configuration error of an object's own geometric fields.
pub open spec fn geometry_error(o: ObjectDesc, i: int) -> Option<SceneError> {
    match o.kind {
        ObjectKind::Sphere => if o.position is None {
            Option::Some(SceneError::MissingField { index: i as usize, field: FieldId::Position })
        } else if o.radius is None {
            Option::Some(SceneError::MissingField { index: i as usize, field: FieldId::Radius })
        } else {
            Option::None
        },
        ObjectKind::XYRect | ObjectKind::XZRect | ObjectKind::YZRect => match o.bounds {
            Option::None => Option::Some(
                SceneError::MissingField { index: i as usize, field: FieldId::Bounds },
            ),
            Option::Some(b) => if o.k is None {
                Option::Some(SceneError::MissingField { index: i as usize, field: FieldId::K })
            } else if !(b.0 < b.1 && b.2 < b.3 && coord_ok(b.0 as int) && coord_ok(b.1 as int)
                && coord_ok(b.2 as int) && coord_ok(b.3 as int)) {
                Option::Some(SceneError::InvalidField { index: i as usize, field: FieldId::Bounds })
            } else if !coord_ok(o.k->0 as int) {
                Option::Some(SceneError::InvalidField { index: i as usize, field: FieldId::K })
            } else {
                Option::None
            },
        },
        ObjectKind::Cube => match (o.cube_min, o.cube_max) {
            (Option::None, _) => Option::Some(
                SceneError::MissingField { index: i as usize, field: FieldId::CubeMin },
            ),
            (_, Option::None) => Option::Some(
                SceneError::MissingField { index: i as usize, field: FieldId::CubeMax },
            ),
            (Option::Some(lo), Option::Some(hi)) => if !(lo.x < hi.x && lo.y < hi.y && lo.z < hi.z
                && vec_in(lo, SCENE_LIMIT as int) && vec_in(hi, SCENE_LIMIT as int)) {
                Option::Some(
                    SceneError::InvalidField { index: i as usize, field: FieldId::CubeMin },
                )
            } else if o.translation matches Option::Some(tr) && !vec_in(tr, SCENE_LIMIT as int) {
                Option::Some(
                    SceneError::InvalidField { index: i as usize, field: FieldId::Translation },
                )
            } else {
                Option::None
            },
        },
        ObjectKind::Triangle => if o.v0 is None {
            Option::Some(SceneError::MissingField { index: i as usize, field: FieldId::V0 })
        } else if o.v1 is None {
            Option::Some(SceneError::MissingField { index: i as usize, field: FieldId::V1 })
        } else if o.v2 is None {
            Option::Some(SceneError::MissingField { index: i as usize, field: FieldId::V2 })
        } else {
            Option::None
        },
        ObjectKind::Unknown => Option::Some(
            SceneError::UnknownObjectKind { index: i as usize },
        ),
    }
}

/// The first configuration error of an object descriptor, if any: an
/// unknown kind, then a missing or invalid material, then the geometry.
pub open spec fn object_error(o: ObjectDesc, i: int) -> Option<SceneError> {
    if o.kind is Unknown {
        Option::Some(SceneError::UnknownObjectKind { index: i as usize })
    } else {
        match o.material {
            Option::None => Option::Some(
                SceneError::MissingField { index: i as usize, field: FieldId::MaterialRef },
            ),
            Option::Some(m) => match material_error(m, i) {
                Option::Some(e) => Option::Some(e),
                Option::None => geometry_error(o, i),
            },
        }
    }
}

/// The first configuration error of the scene's objects, scanned in order
/// from the position `i`.
pub open spec fn scene_error_from(s: Seq<ObjectDesc>, i: int) -> Option<SceneError>
    decreases s.len() - i,
{
    if i < 0 || i >= s.len() {
        Option::None
    } else {
        match object_error(s[i], i) {
            Option::Some(e) => Option::Some(e),
            Option::None => scene_error_from(s, i + 1),
        }
    }
}

fn check_texture(t: &TextureDesc, i: usize) -> (r: Option<SceneError>)
    ensures
        r == texture_error(*t, i as int),
{
    match t.kind {
        TextureKind::Constant => {
            if t.color.is_none() {
                Option::Some(SceneError::MissingField { index: i, field: FieldId::Color })
            } else {
                Option::None
            }
        },
        TextureKind::Perlin => {
            if t.scale.is_none() {
                Option::Some(SceneError::MissingField { index: i, field: FieldId::Scale })
            } else if t.turbulence.is_none() {
                Option::Some(SceneError::MissingField { index: i, field: FieldId::Turbulence })
            } else {
                Option::None
            }
        },
        TextureKind::Unknown => Option::Some(SceneError::UnknownTextureKind { index: i }),
    }
}

fn check_material(m: &MaterialDesc, i: usize) -> (r: Option<SceneError>)
    ensures
        r == material_error(*m, i as int),
{
    match m.kind {
        MaterialKind::Lambertian | MaterialKind::DiffuseLight => {
            match &m.texture {
                Option::Some(t) => check_texture(t, i),
                Option::None => Option::Some(
                    SceneError::MissingField { index: i, field: FieldId::TextureRef },
                ),
            }
        },
        MaterialKind::Dielectric => {
            if m.ref_index.is_none() {
                Option::Some(SceneError::MissingField { index: i, field: FieldId::RefIndex })
            } else {
                Option::None
            }
        },
        MaterialKind::Metal => {
            if m.albedo.is_none() {
                Option::Some(SceneError::MissingField { index: i, field: FieldId::Albedo })
            } else if m.fuzz.is_none() {
                Option::Some(SceneError::MissingField { index: i, field: FieldId::Fuzz })
            } else {
                Option::None
            }
        },
        MaterialKind::Unknown => Option::Some(SceneError::UnknownMaterialKind { index: i }),
    }
}

fn check_geometry(o: &ObjectDesc, i: usize) -> (r: Option<SceneError>)
    ensures
        r == geometry_error(*o, i as int),
{
    match o.kind {
        ObjectKind::Sphere => {
            if o.position.is_none() {
                Option::Some(SceneError::MissingField { index: i, field: FieldId::Position })
            } else if o.radius.is_none() {
                Option::Some(SceneError::MissingField { index: i, field: FieldId::Radius })
            } else {
                Option::None
            }
        },
        ObjectKind::XYRect | ObjectKind::XZRect | ObjectKind::YZRect => {
            match &o.bounds {
                Option::None => Option::Some(
                    SceneError::MissingField { index: i, field: FieldId::Bounds },
                ),
                Option::Some(b) => {
                    if o.k.is_none() {
                        Option::Some(SceneError::MissingField { index: i, field: FieldId::K })
                    } else if !(b.0 < b.1 && b.2 < b.3 && -SCENE_LIMIT <= b.0 && b.1 <= SCENE_LIMIT
                        && -SCENE_LIMIT <= b.2 && b.3 <= SCENE_LIMIT) {
                        Option::Some(SceneError::InvalidField { index: i, field: FieldId::Bounds })
                    } else {
                        let k = match o.k {
                            Option::Some(k) => k,
                            Option::None => 0,
                        };
                        if !(-SCENE_LIMIT <= k && k <= SCENE_LIMIT) {
                            Option::Some(SceneError::InvalidField { index: i, field: FieldId::K })
                        } else {
                            Option::None
                        }
                    }
                },
            }
        },
        ObjectKind::Cube => {
            match (&o.cube_min, &o.cube_max) {
                (Option::None, _) => Option::Some(
                    SceneError::MissingField { index: i, field: FieldId::CubeMin },
                ),
                (_, Option::None) => Option::Some(
                    SceneError::MissingField { index: i, field: FieldId::CubeMax },
                ),
                (Option::Some(lo), Option::Some(hi)) => {
                    if !(lo.x < hi.x && lo.y < hi.y && lo.z < hi.z && -SCENE_LIMIT <= lo.x
                        && -SCENE_LIMIT <= lo.y && -SCENE_LIMIT <= lo.z && hi.x <= SCENE_LIMIT
                        && hi.y <= SCENE_LIMIT && hi.z <= SCENE_LIMIT && lo.x <= SCENE_LIMIT
                        && lo.y <= SCENE_LIMIT && lo.z <= SCENE_LIMIT && -SCENE_LIMIT <= hi.x
                        && -SCENE_LIMIT <= hi.y && -SCENE_LIMIT <= hi.z) {
                        Option::Some(
                            SceneError::InvalidField { index: i, field: FieldId::CubeMin },
                        )
                    } else {
                        match &o.translation {
                            Option::Some(tr) => {
                                if !(-SCENE_LIMIT <= tr.x && tr.x <= SCENE_LIMIT && -SCENE_LIMIT
                                    <= tr.y && tr.y <= SCENE_LIMIT && -SCENE_LIMIT <= tr.z && tr.z
                                    <= SCENE_LIMIT) {
                                    Option::Some(
                                        SceneError::InvalidField {
                                            index: i,
                                            field: FieldId::Translation,
                                        },
                                    )
                                } else {
                                    Option::None
                                }
                            },
                            Option::None => Option::None,
                        }
                    }
                },
            }
        },
        ObjectKind::Triangle => {
            if o.v0.is_none() {
                Option::Some(SceneError::MissingField { index: i, field: FieldId::V0 })
            } else if o.v1.is_none() {
                Option::Some(SceneError::MissingField { index: i, field: FieldId::V1 })
            } else if o.v2.is_none() {
                Option::Some(SceneError::MissingField { index: i, field: FieldId::V2 })
            } else {
                Option::None
            }
        },
        ObjectKind::Unknown => Option::Some(SceneError::UnknownObjectKind { index: i }),
    }
}

fn check_object(o: &ObjectDesc, i: usize) -> (r: Option<SceneError>)
    ensures
        r == object_error(*o, i as int),
{
    match o.kind {
        ObjectKind::Unknown => Option::Some(SceneError::UnknownObjectKind { index: i }),
        _ => {
            match &o.material {
                Option::None => Option::Some(
                    SceneError::MissingField { index: i, field: FieldId::MaterialRef },
                ),
                Option::Some(m) => {
                    match check_material(m, i) {
                        Option::Some(e) => Option::Some(e),
                        Option::None => check_geometry(o, i),
                    }
                },
            }
        },
    }
}

/// Validates the scene's object descriptors against the schema: every
/// object kind must be known, every material and texture must be of a known
/// kind with the fields its kind requires, and the geometry must be
/// non-degenerate and within the coordinate budget. Returns the first error
/// in descriptor order.
pub fn validate_scene(objects: &Vec<ObjectDesc>) -> (r: Option<SceneError>)
    ensures
        r == scene_error_from(objects@, 0),
        r is None <==> forall|i: int|
            0 <= i < objects@.len() ==> object_error(#[trigger] objects@[i], i) is None,
{
    let mut i: usize = 0;
    while i < objects.len()
        invariant
            0 <= i <= objects@.len(),
            scene_error_from(objects@, 0) == scene_error_from(objects@, i as int),
            forall|j: int| 0 <= j < i ==> object_error(#[trigger] objects@[j], j) is None,
        decreases objects@.len() - i,
    {
        let e = check_object(&objects[i], i);
        match e {
            Option::Some(err) => {
                proof {
                    lemma_scene_error_none_prefix(objects@, 0, i as int);
                }
                return Option::Some(err);
            },
            Option::None => {},
        }
        i = i + 1;
    }
    proof {
        if scene_error_from(objects@, 0) is Some {
            lemma_scene_error_some_witness(objects@, 0);
        }
    }
    Option::None
}

/// If every object before `j` is clean, the scan from `i <= j` agrees with
/// the scan from `j`.
proof fn lemma_scene_error_none_prefix(s: Seq<ObjectDesc>, i: int, j: int)
    requires
        0 <= i <= j <= s.len(),
        forall|a: int| i <= a < j ==> object_error(#[trigger] s[a], a) is None,
    ensures
        scene_error_from(s, i) == scene_error_from(s, j),
    decreases j - i,
{
    if i < j {
        lemma_scene_error_none_prefix(s, i + 1, j);
    }
}

/// A failing scan names a failing object.
proof fn lemma_scene_error_some_witness(s: Seq<ObjectDesc>, i: int)
    requires
        0 <= i <= s.len(),
        scene_error_from(s, i) is Some,
    ensures
        exists|j: int| i <= j < s.len() && object_error(#[trigger] s[j], j) is Some,
    decreases s.len() - i,
{
    if i < s.len() {
        if object_error(s[i], i) is Some {
        } else {
            lemma_scene_error_some_witness(s, i + 1);
        }
    }
}

/// The ambient model of the scene.
#[derive(Clone, Copy, Debug, PartialEq, Eq, Structural)]
pub enum AmbientColor {
    Constant(Vector3),
    Blended(Vector3, Vector3),
}

#[derive(Clone, Copy, Debug, PartialEq, Eq, Structural)]
pub enum AmbientKind {
    Constant,
    Blended,
    Unknown,
}

/// The ambient section of the scene file.
pub struct AmbientDesc {
    pub kind: AmbientKind,
    pub color: Option<Vector3>,
    pub start: Option<Vector3>,
    pub end: Option<Vector3>,
}

/// Resolves the ambient section: absent sections and unknown kinds mean
/// black, as the renderer always has; a section of a known kind must carry
/// its fields.
pub fn resolve_ambient(d: &Option<AmbientDesc>) -> (r: Option<AmbientColor>)
    ensures
        match *d {
            Option::None => r == Option::Some(
                AmbientColor::Constant(Vector3 { x: 0i64, y: 0i64, z: 0i64 }),
            ),
            Option::Some(a) => match a.kind {
                AmbientKind::Constant => match a.color {
                    Option::Some(c) => r == Option::Some(AmbientColor::Constant(c)),
                    Option::None => r is None,
                },
                AmbientKind::Blended => match (a.start, a.end) {
                    (Option::Some(st), Option::Some(en)) => r == Option::Some(
                        AmbientColor::Blended(st, en),
                    ),
                    _ => r is None,
                },
                AmbientKind::Unknown => r == Option::Some(
                    AmbientColor::Constant(Vector3 { x: 0i64, y: 0i64, z: 0i64 }),
                ),
            },
        },
{
    match d {
        Option::None => Option::Some(AmbientColor::Constant(Vector3::zero())),
        Option::Some(a) => {
            match a.kind {
                AmbientKind::Constant => {
                    match a.color {
                        Option::Some(c) => Option::Some(AmbientColor::Constant(c)),
                        Option::None => Option::None,
                    }
                },
                AmbientKind::Blended => {
                    match (a.start, a.end) {
                        (Option::Some(st), Option::Some(en)) => Option::Some(
                            AmbientColor::Blended(st, en),
                        ),
                        _ => Option::None,
                    }
                },
                AmbientKind::Unknown => Option::Some(AmbientColor::Constant(Vector3::zero())),
            }
        },
    }
}

/// The built texture carries the descriptor's data.
pub open spec fn texture_matches(t: Texture, d: TextureDesc) -> bool {
    match d.kind {
        TextureKind::Constant => t == Texture::Constant { color: d.color->0 },
        TextureKind::Perlin => t == (Texture::Noise {
            scale: d.scale->0,
            turbulence: d.turbulence->0,
        }),
        TextureKind::Unknown => false,
    }
}

/// The built material carries the descriptor's data; a texture reference
/// points into the texture table at an entry built from the descriptor's
/// texture.
pub open spec fn material_matches(mat: Material, d: MaterialDesc, textures: Seq<Texture>) -> bool {
    match d.kind {
        MaterialKind::Lambertian => mat matches Material::Lambertian { texture } && texture
            < textures.len() && texture_matches(textures[texture as int], d.texture->0),
        MaterialKind::DiffuseLight => mat matches Material::DiffuseLight { texture } && texture
            < textures.len() && texture_matches(textures[texture as int], d.texture->0),
        MaterialKind::Dielectric => mat == (Material::Dielectric { ref_index: d.ref_index->0 }),
        MaterialKind::Metal => mat == (Material::Metal {
            albedo: d.albedo->0,
            fuzz: if d.fuzz->0 < UNIT {
                d.fuzz->0
            } else {
                UNIT
            },
        }),
        MaterialKind::Unknown => false,
    }
}

/// The six faces of an axis-aligned box between `lo` and `hi`, with the
/// faces on the low sides flipped inward.
pub open spec fn cube_matches(h: Hitable, lo: Vector3, hi: Vector3, mi: int) -> bool {
    h matches Hitable::HitableList { hitables } && {
        let f = hitables@;
        &&& f.len() == 6
        &&& f[0] == (Hitable::XYRect {
            x0: lo.x, x1: hi.x, y0: lo.y, y1: hi.y, k: hi.z, material: mi as usize,
        })
        &&& f[1] matches Hitable::FlipNormals { child } && *child == (Hitable::XYRect {
            x0: lo.x, x1: hi.x, y0: lo.y, y1: hi.y, k: lo.z, material: mi as usize,
        })
        &&& f[2] == (Hitable::XZRect {
            x0: lo.x, x1: hi.x, z0: lo.z, z1: hi.z, k: hi.y, material: mi as usize,
        })
        &&& f[3] matches Hitable::FlipNormals { child } && *child == (Hitable::XZRect {
            x0: lo.x, x1: hi.x, z0: lo.z, z1: hi.z, k: lo.y, material: mi as usize,
        })
        &&& f[4] == (Hitable::YZRect {
            y0: lo.y, y1: hi.y, z0: lo.z, z1: hi.z, k: hi.x, material: mi as usize,
        })
        &&& f[5] matches Hitable::FlipNormals { child } && *child == (Hitable::YZRect {
            y0: lo.y, y1: hi.y, z0: lo.z, z1: hi.z, k: lo.x, material: mi as usize,
        })
    }
}

/// An axis-aligned box.
pub struct Cube {}

impl Cube {
    /// Builds the box as a list of its six faces, three of them flipped.
    pub fn new(min: Vector3, max: Vector3, material: usize) -> (r: Hitable)
        requires
            vec_in(min, GEOM_LIMIT as int),
            vec_in(max, GEOM_LIMIT as int),
            min.x < max.x,
            min.y < max.y,
            min.z < max.z,
        ensures
            cube_matches(r, min, max, material as int),
            hwf(r, GEOM_LIMIT as int),
    {
        Cube::faces(min, max, material, Ghost(GEOM_LIMIT as int))
    }

    /// The six faces, within the coordinate budget `m`.
    fn faces(min: Vector3, max: Vector3, material: usize, m: Ghost<int>) -> (r: Hitable)
        requires
            0 <= m@ <= GEOM_LIMIT as int,
            vec_in(min, m@),
            vec_in(max, m@),
            min.x < max.x,
            min.y < max.y,
            min.z < max.z,
        ensures
            cube_matches(r, min, max, material as int),
            hwf(r, m@),
    {
        let mut faces: Vec<Hitable> = Vec::new();
        faces.push(
            Hitable::XYRect {
                x0: min.x, x1: max.x, y0: min.y, y1: max.y, k: max.z, material,
            },
        );
        faces.push(
            Hitable::FlipNormals {
                child: Box::new(
                    Hitable::XYRect {
                        x0: min.x, x1: max.x, y0: min.y, y1: max.y, k: min.z, material,
                    },
                ),
            },
        );
        faces.push(
            Hitable::XZRect {
                x0: min.x, x1: max.x, z0: min.z, z1: max.z, k: max.y, material,
            },
        );
        faces.push(
            Hitable::FlipNormals {
                child: Box::new(
                    Hitable::XZRect {
                        x0: min.x, x1: max.x, z0: min.z, z1: max.z, k: min.y, material,
                    },
                ),
            },
        );
        faces.push(
            Hitable::YZRect {
                y0: min.y, y1: max.y, z0: min.z, z1: max.z, k: max.x, material,
            },
        );
        faces.push(
            Hitable::FlipNormals {
                child: Box::new(
                    Hitable::YZRect {
                        y0: min.y, y1: max.y, z0: min.z, z1: max.z, k: min.x, material,
                    },
                ),
            },
        );
        let r = Hitable::HitableList { hitables: faces };
        proof {
            let f = r->hitables@;
            assert(f.len() == 6);
            assert(hwf(f[0], m@));
            assert(hwf(*f[1]->FlipNormals_child, m@));
            assert(hwf(f[1], m@));
            assert(hwf(f[2], m@));
            assert(hwf(*f[3]->FlipNormals_child, m@));
            assert(hwf(f[3], m@));
            assert(hwf(f[4], m@));
            assert(hwf(*f[5]->FlipNormals_child, m@));
            assert(hwf(f[5], m@));
            assert forall|i: int| 0 <= i < f.len() implies hwf(#[trigger] f[i], m@) by {
                if i == 0 {
                    assert(hwf(f[0], m@));
                } else if i == 1 {
                    assert(hwf(f[1], m@));
                } else if i == 2 {
                    assert(hwf(f[2], m@));
                } else if i == 3 {
                    assert(hwf(f[3], m@));
                } else if i == 4 {
                    assert(hwf(f[4], m@));
                } else {
                    assert(hwf(f[5], m@));
                }
            }
        }
        r
    }
}

/// The descriptor lies within what the exact intersection model can hold:
/// the axis-aligned rectangle family.
pub open spec fn supported(o: ObjectDesc) -> bool {
    match o.kind {
        ObjectKind::XYRect | ObjectKind::XZRect | ObjectKind::YZRect => true,
        ObjectKind::Cube => o.rotate_y is None,
        _ => false,
    }
}

/// The first object, scanning from `i`, that the exact model cannot hold.
pub open spec fn unsupported_from(s: Seq<ObjectDesc>, i: int) -> Option<SceneError>
    decreases s.len() - i,
{
    if i < 0 || i >= s.len() {
        Option::None
    } else if !supported(s[i]) {
        Option::Some(SceneError::UnsupportedObject { index: i as usize })
    } else {
        unsupported_from(s, i + 1)
    }
}

/// The built object tree corresponds to its descriptor, with its material
/// at table index `mi`.
pub open spec fn object_matches(h: Hitable, o: ObjectDesc, mi: int) -> bool {
    match o.kind {
        ObjectKind::XYRect => {
            let b = o.bounds->0;
            let plain = Hitable::XYRect {
                x0: b.0, x1: b.1, y0: b.2, y1: b.3, k: o.k->0, material: mi as usize,
            };
            if o.flip {
                h matches Hitable::FlipNormals { child } && *child == plain
            } else {
                h == plain
            }
        },
        ObjectKind::XZRect => {
            let b = o.bounds->0;
            let plain = Hitable::XZRect {
                x0: b.0, x1: b.1, z0: b.2, z1: b.3, k: o.k->0, material: mi as usize,
            };
            if o.flip {
                h matches Hitable::FlipNormals { child } && *child == plain
            } else {
                h == plain
            }
        },
        ObjectKind::YZRect => {
            let b = o.bounds->0;
            let plain = Hitable::YZRect {
                y0: b.0, y1: b.1, z0: b.2, z1: b.3, k: o.k->0, material: mi as usize,
            };
            if o.flip {
                h matches Hitable::FlipNormals { child } && *child == plain
            } else {
                h == plain
            }
        },
        ObjectKind::Cube => {
            match o.translation {
                Option::None => cube_matches(h, o.cube_min->0, o.cube_max->0, mi),
                Option::Some(tr) => h matches Hitable::Translate { child, offset } && offset == tr
                    && cube_matches(*child, o.cube_min->0, o.cube_max->0, mi),
            }
        },
        _ => false,
    }
}

/// The scene: the geometry root, the material and texture tables, and the
/// ambient model. The root is the flat list of the scene's objects.
pub struct World {
    pub root: Hitable,
    pub materials: Vec<Material>,
    pub textures: Vec<Texture>,
    pub ambient_color: AmbientColor,
}

/// Colors stay within this bound.
pub const COLOR_LIMIT: i64 = 0x8000_0000;

/// Well-formedness of a world: the root is a list of well-formed trees and
/// the ambient colors are bounded.
pub open spec fn world_wf(w: World) -> bool {
    &&& w.root is HitableList
    &&& hwf(w.root, GEOM_LIMIT as int)
    &&& match w.ambient_color {
        AmbientColor::Constant(c) => vec_in(c, COLOR_LIMIT as int),
        AmbientColor::Blended(st, en) => vec_in(st, COLOR_LIMIT as int) && vec_in(
            en,
            COLOR_LIMIT as int,
        ),
    }
}

/// Builds one texture and appends it to the table, returning its index.
fn build_texture(d: &TextureDesc, textures: &mut Vec<Texture>) -> (r: usize)
    requires
        texture_error(*d, 0) is None,
    ensures
        final(textures)@ == old(textures)@.push(final(textures)@[r as int]),
        r as int == old(textures)@.len(),
        texture_matches(final(textures)@[r as int], *d),
{
    let idx = textures.len();
    match d.kind {
        TextureKind::Constant => {
            let c = match d.color {
                Option::Some(c) => c,
                Option::None => Vector3::zero(),
            };
            textures.push(Texture::Constant { color: c });
        },
        TextureKind::Perlin => {
            let sc = match d.scale {
                Option::Some(s) => s,
                Option::None => 0,
            };
            let tu = match d.turbulence {
                Option::Some(t) => t,
                Option::None => 0,
            };
            textures.push(Texture::Noise { scale: sc, turbulence: tu });
        },
        TextureKind::Unknown => {
            proof {
                assert(false);
            }
            textures.push(Texture::Constant { color: Vector3::zero() });
        },
    }
    idx
}

/// Builds one material, appending any texture it carries to the table.
fn build_material(d: &MaterialDesc, textures: &mut Vec<Texture>) -> (r: Material)
    requires
        material_error(*d, 0) is None,
    ensures
        old(textures)@.is_prefix_of(final(textures)@),
        material_matches(r, *d, final(textures)@),
{
    match d.kind {
        MaterialKind::Lambertian => {
            let t = match &d.texture {
                Option::Some(t) => t,
                Option::None => {
                    proof {
                        assert(false);
                    }
                    return Material::NoMaterial;
                },
            };
            let ti = build_texture(t, textures);
            Material::Lambertian { texture: ti }
        },
        MaterialKind::DiffuseLight => {
            let t = match &d.texture {
                Option::Some(t) => t,
                Option::None => {
                    proof {
                        assert(false);
                    }
                    return Material::NoMaterial;
                },
            };
            let ti = build_texture(t, textures);
            Material::DiffuseLight { texture: ti }
        },
        MaterialKind::Dielectric => {
            let ri = match d.ref_index {
                Option::Some(ri) => ri,
                Option::None => 0,
            };
            Material::Dielectric { ref_index: ri }
        },
        MaterialKind::Metal => {
            let albedo = match d.albedo {
                Option::Some(a) => a,
                Option::None => Vector3::zero(),
            };
            let fuzz = match d.fuzz {
                Option::Some(f) => f,
                Option::None => 0,
            };
            Material::metal(albedo, fuzz)
        },
        MaterialKind::Unknown => {
            proof {
                assert(false);
            }
            Material::NoMaterial
        },
    }
}

/// Builds one object tree; its material sits at table index `mi`.
fn build_object(o: &ObjectDesc, mi: usize) -> (r: Hitable)
    requires
        object_error(*o, 0) is None,
        supported(*o),
    ensures
        object_matches(r, *o, mi as int),
        hwf(r, GEOM_LIMIT as int),
{
    match o.kind {
        ObjectKind::XYRect | ObjectKind::XZRect | ObjectKind::YZRect => {
            let b = match o.bounds {
                Option::Some(b) => b,
                Option::None => (0, 0, 0, 0),
            };
            let k = match o.k {
                Option::Some(k) => k,
                Option::None => 0,
            };
            let plain = match o.kind {
                ObjectKind::XYRect => Hitable::XYRect {
                    x0: b.0, x1: b.1, y0: b.2, y1: b.3, k, material: mi,
                },
                ObjectKind::XZRect => Hitable::XZRect {
                    x0: b.0, x1: b.1, z0: b.2, z1: b.3, k, material: mi,
                },
                _ => Hitable::YZRect {
                    y0: b.0, y1: b.1, z0: b.2, z1: b.3, k, material: mi,
                },
            };
            proof {
                assert(hwf(plain, GEOM_LIMIT as int));
            }
            if o.flip {
                Hitable::FlipNormals { child: Box::new(plain) }
            } else {
                plain
            }
        },
        ObjectKind::Cube => {
            let lo = match o.cube_min {
                Option::Some(v) => v,
                Option::None => Vector3::zero(),
            };
            let hi = match o.cube_max {
                Option::Some(v) => v,
                Option::None => Vector3::zero(),
            };
            match o.translation {
                Option::Some(tr) => {
                    let cube = Cube::faces(
                        lo,
                        hi,
                        mi,
                        Ghost(GEOM_LIMIT as int - vabs_max(tr)),
                    );
                    Hitable::Translate { child: Box::new(cube), offset: tr }
                },
                Option::None => Cube::faces(lo, hi, mi, Ghost(GEOM_LIMIT as int)),
            }
        },
        _ => {
            proof {
                assert(false);
            }
            Hitable::HitableList { hitables: Vec::new() }
        },
    }
}

/// Material bounds only grow.
proof fn lemma_mats_below_mono(h: Hitable, n: int, m: int)
    requires
        mats_below(h, n),
        n <= m,
    ensures
        mats_below(h, m),
    decreases h,
{
    match h {
        Hitable::XYRect { .. } => {},
        Hitable::XZRect { .. } => {},
        Hitable::YZRect { .. } => {},
        Hitable::FlipNormals { child } => {
            lemma_mats_below_mono(*child, n, m);
        },
        Hitable::Translate { child, offset } => {
            lemma_mats_below_mono(*child, n, m);
        },
        Hitable::HitableList { hitables } => {
            assert forall|i: int| 0 <= i < hitables@.len() implies mats_below(
                #[trigger] hitables@[i],
                m,
            ) by {
                lemma_mats_below_mono(hitables@[i], n, m);
            }
        },
        Hitable::BVHNode { left, right, bbox } => {
            lemma_mats_below_mono(*left, n, m);
            lemma_mats_below_mono(*right, n, m);
        },
    }
}

/// An object built against material index `mi` holds no index beyond it.
proof fn lemma_object_matches_mats(h: Hitable, o: ObjectDesc, mi: int)
    requires
        object_matches(h, o, mi),
        0 <= mi,
    ensures
        mats_below(h, mi + 1),
{
    match o.kind {
        ObjectKind::Cube => {
            let inner = if o.translation is Some {
                *h->Translate_child
            } else {
                h
            };
            let f = inner->hitables@;
            assert forall|i: int| 0 <= i < f.len() implies mats_below(#[trigger] f[i], mi + 1) by {
                if i == 0 {
                    assert(mats_below(f[0], mi + 1));
                } else if i == 1 {
                    assert(mats_below(*f[1]->FlipNormals_child, mi + 1));
                    assert(mats_below(f[1], mi + 1));
                } else if i == 2 {
                    assert(mats_below(f[2], mi + 1));
                } else if i == 3 {
                    assert(mats_below(*f[3]->FlipNormals_child, mi + 1));
                    assert(mats_below(f[3], mi + 1));
                } else if i == 4 {
                    assert(mats_below(f[4], mi + 1));
                } else {
                    assert(mats_below(*f[5]->FlipNormals_child, mi + 1));
                    assert(mats_below(f[5], mi + 1));
                }
            }
            assert(mats_below(inner, mi + 1));
        },
        ObjectKind::XYRect | ObjectKind::XZRect | ObjectKind::YZRect => {
            if o.flip {
                assert(mats_below(*h->FlipNormals_child, mi + 1));
            }
        },
        _ => {},
    }
}

/// A record reported by a world whose root respects its material table
/// addresses that table.
pub proof fn lemma_world_hit_material(
    w: World,
    ray: Ray,
    t_min: Rat,
    t_max: Rat,
    res: Option<HitRecord>,
)
    requires
        mats_below(w.root, w.materials@.len() as int),
        hit_post(w.root, ray, t_min, t_max, res),
        res is Some,
    ensures
        res->0.material < w.materials@.len(),
{
    lemma_hit_material_below(w.root, ray, res->0, w.materials@.len() as int);
}

impl World {
    /// Builds the world from validated descriptors: one object tree and one
    /// material table entry per descriptor, in order. Returns the first
    /// schema error, or the first object the exact model cannot hold.
    pub fn from_scene(objects: &Vec<ObjectDesc>, ambient: AmbientColor) -> (r: Result<
        World,
        SceneError,
    >)
        requires
            match ambient {
                AmbientColor::Constant(c) => vec_in(c, COLOR_LIMIT as int),
                AmbientColor::Blended(st, en) => vec_in(st, COLOR_LIMIT as int) && vec_in(
                    en,
                    COLOR_LIMIT as int,
                ),
            },
        ensures
            match r {
                Result::Ok(w) => {
                    &&& scene_error_from(objects@, 0) is None
                    &&& unsupported_from(objects@, 0) is None
                    &&& world_wf(w)
                    &&& mats_below(w.root, w.materials@.len() as int)
                    &&& w.ambient_color == ambient
                    &&& w.root matches Hitable::HitableList { hitables } && hitables@.len()
                        == objects@.len() && w.materials@.len() == objects@.len() && (forall|
                        i: int,
                    |
                        0 <= i < objects@.len() ==> object_matches(
                            #[trigger] hitables@[i],
                            objects@[i],
                            i,
                        )) && (forall|i: int|
                        0 <= i < objects@.len() ==> material_matches(
                            #[trigger] w.materials@[i],
                            objects@[i].material->0,
                            w.textures@,
                        ))
                },
                Result::Err(e) => scene_error_from(objects@, 0) == Option::Some(e) || (
                scene_error_from(objects@, 0) is None && unsupported_from(objects@, 0)
                    == Option::Some(e)),
            },
    {
        match validate_scene(objects) {
            Option::Some(e) => {
                return Result::Err(e);
            },
            Option::None => {},
        }
        let mut hitables: Vec<Hitable> = Vec::new();
        let mut materials: Vec<Material> = Vec::new();
        let mut textures: Vec<Texture> = Vec::new();
        let mut i: usize = 0;
        while i < objects.len()
            invariant
                0 <= i <= objects@.len(),
                forall|j: int|
                    0 <= j < objects@.len() ==> object_error(#[trigger] objects@[j], j) is None,
                forall|j: int| 0 <= j < i ==> supported(#[trigger] objects@[j]),
                unsupported_from(objects@, 0) == unsupported_from(objects@, i as int),
                hitables@.len() == i,
                materials@.len() == i,
                forall|j: int|
                    0 <= j < i ==> object_matches(#[trigger] hitables@[j], objects@[j], j),
                forall|j: int|
                    0 <= j < i ==> material_matches(
                        #[trigger] materials@[j],
                        objects@[j].material->0,
                        textures@,
                    ),
                forall|j: int| 0 <= j < i ==> hwf(#[trigger] hitables@[j], GEOM_LIMIT as int),
                forall|j: int| 0 <= j < i ==> mats_below(#[trigger] hitables@[j], j + 1),
            decreases objects@.len() - i,
        {
            let o = &objects[i];
            let is_supported = match o.kind {
                ObjectKind::XYRect | ObjectKind::XZRect | ObjectKind::YZRect => true,
                ObjectKind::Cube => o.rotate_y.is_none(),
                _ => false,
            };
            if !is_supported {
                proof {
                    lemma_unsupported_none_prefix(objects@, 0, i as int);
                    lemma_scene_error_none_prefix(objects@, 0, objects@.len() as int);
                }
                return Result::Err(SceneError::UnsupportedObject { index: i });
            }
            proof {
                assert(object_error(objects@[i as int], i as int) is None);
                lemma_object_error_index(objects@[i as int], i as int);
            }
            let ghost old_textures = textures@;
            let mat = match &o.material {
                Option::Some(m) => build_material(m, &mut textures),
                Option::None => {
                    proof {
                        assert(false);
                    }
                    Material::NoMaterial
                },
            };
            let obj = build_object(o, i);
            proof {
                lemma_object_matches_mats(obj, objects@[i as int], i as int);
            }
            hitables.push(obj);
            materials.push(mat);
            proof {
                assert forall|j: int|
                    0 <= j < i + 1 implies material_matches(
                    #[trigger] materials@[j],
                    objects@[j].material->0,
                    textures@,
                ) by {
                    if j < i {
                        lemma_material_matches_prefix(
                            materials@[j],
                            objects@[j].material->0,
                            old_textures,
                            textures@,
                        );
                    }
                }
            }
            i = i + 1;
        }
        proof {
            if unsupported_from(objects@, 0) is Some {
                lemma_unsupported_some_witness(objects@, 0);
            }
        }
        proof {
            assert forall|j: int| 0 <= j < hitables@.len() implies mats_below(
                #[trigger] hitables@[j],
                hitables@.len() as int,
            ) by {
                lemma_mats_below_mono(hitables@[j], j + 1, hitables@.len() as int);
            }
        }
        let root = Hitable::HitableList { hitables };
        let w = World { root, materials, textures, ambient_color: ambient };
        Result::Ok(w)
    }
}

/// An object error does not depend on the index used to report it, except
/// through the reported position.
proof fn lemma_object_error_index(o: ObjectDesc, i: int)
    requires
        object_error(o, i) is None,
    ensures
        object_error(o, 0) is None,
{
}

/// Material correspondence is stable under growing the texture table.
proof fn lemma_material_matches_prefix(
    mat: Material,
    d: MaterialDesc,
    small: Seq<Texture>,
    big: Seq<Texture>,
)
    requires
        material_matches(mat, d, small),
        small.is_prefix_of(big),
    ensures
        material_matches(mat, d, big),
{
}

proof fn lemma_unsupported_none_prefix(s: Seq<ObjectDesc>, i: int, j: int)
    requires
        0 <= i <= j < s.len(),
        forall|a: int| i <= a < j ==> supported(#[trigger] s[a]),
        !supported(s[j]),
    ensures
        unsupported_from(s, i) == Option::Some(
            SceneError::UnsupportedObject { index: j as usize },
        ),
    decreases j - i,
{
    if i < j {
        lemma_unsupported_none_prefix(s, i + 1, j);
    }
}

proof fn lemma_unsupported_some_witness(s: Seq<ObjectDesc>, i: int)
    requires
        0 <= i <= s.len(),
        unsupported_from(s, i) is Some,
    ensures
        exists|j: int| i <= j < s.len() && !supported(#[trigger] s[j]),
    decreases s.len() - i,
{
    if i < s.len() {
        if supported(s[i]) {
            lemma_unsupported_some_witness(s, i + 1);
        }
    }
}

/// An object that the integrator should importance-sample: one whose
/// material is a diffuse light.
pub open spec fn important(o: ObjectDesc) -> bool {
    o.material matches Option::Some(m) && m.kind is DiffuseLight
}

/// The subsequence of descriptors whose materials are important sample
/// sources, in order.
pub open spec fn filter_important(s: Seq<ObjectDesc>) -> Seq<ObjectDesc>
    decreases s.len(),
{
    if s.len() == 0 {
        Seq::empty()
    } else if important(s.last()) {
        filter_important(s.drop_last()).push(s.last())
    } else {
        filter_important(s.drop_last())
    }
}

/// The first object, scanning from `i`, that is an importance-sample
/// source but lies outside the exact model. Objects the integrator never
/// importance-samples do not matter here.
pub open spec fn unsupported_important_from(s: Seq<ObjectDesc>, i: int) -> Option<SceneError>
    decreases s.len() - i,
{
    if i < 0 || i >= s.len() {
        Option::None
    } else if important(s[i]) && !supported(s[i]) {
        Option::Some(SceneError::UnsupportedObject { index: i as usize })
    } else {
        unsupported_important_from(s, i + 1)
    }
}

impl World {
    /// Builds the importance world: the same construction, restricted to
    /// the objects whose materials ask to be importance-sampled. Succeeds
    /// on every valid scene whose important objects the exact model holds;
    /// objects that are never importance-sampled cannot fail the build.
    /// The ambient model is black; it is never read from this world.
    pub fn from_scene_samples(objects: &Vec<ObjectDesc>) -> (r: Result<World, SceneError>)
        ensures
            match r {
                Result::Ok(w) => {
                    &&& scene_error_from(objects@, 0) is None
                    &&& world_wf(w)
                    &&& w.root matches Hitable::HitableList { hitables } && {
                        let kept = filter_important(objects@);
                        &&& hitables@.len() == kept.len()
                        &&& w.materials@.len() == kept.len()
                        &&& forall|i: int|
                            0 <= i < kept.len() ==> object_matches(
                                #[trigger] hitables@[i],
                                kept[i],
                                i,
                            )
                        &&& forall|i: int|
                            0 <= i < kept.len() ==> material_matches(
                                #[trigger] w.materials@[i],
                                kept[i].material->0,
                                w.textures@,
                            )
                    }
                },
                Result::Err(e) => scene_error_from(objects@, 0) == Option::Some(e) || (
                scene_error_from(objects@, 0) is None && unsupported_important_from(objects@, 0)
                    == Option::Some(e)),
            },
    {
        match validate_scene(objects) {
            Option::Some(e) => {
                return Result::Err(e);
            },
            Option::None => {},
        }
        let mut hitables: Vec<Hitable> = Vec::new();
        let mut materials: Vec<Material> = Vec::new();
        let mut textures: Vec<Texture> = Vec::new();
        let mut i: usize = 0;
        while i < objects.len()
            invariant
                0 <= i <= objects@.len(),
                forall|j: int|
                    0 <= j < objects@.len() ==> object_error(#[trigger] objects@[j], j) is None,
                unsupported_important_from(objects@, 0) == unsupported_important_from(
                    objects@,
                    i as int,
                ),
                hitables@.len() == filter_important(objects@.take(i as int)).len(),
                materials@.len() == hitables@.len(),
                forall|j: int|
                    0 <= j < hitables@.len() ==> object_matches(
                        #[trigger] hitables@[j],
                        filter_important(objects@.take(i as int))[j],
                        j,
                    ),
                forall|j: int|
                    0 <= j < hitables@.len() ==> material_matches(
                        #[trigger] materials@[j],
                        filter_important(objects@.take(i as int))[j].material->0,
                        textures@,
                    ),
                forall|j: int|
                    0 <= j < hitables@.len() ==> hwf(#[trigger] hitables@[j], GEOM_LIMIT as int),
            decreases objects@.len() - i,
        {
            let ghost pre = filter_important(objects@.take(i as int));
            let ghost post = filter_important(objects@.take(i as int + 1));
            proof {
                assert(objects@.take(i as int + 1).drop_last() =~= objects@.take(i as int));
                assert(objects@.take(i as int + 1).last() == objects@[i as int]);
            }
            let o = &objects[i];
            let keep = match &o.material {
                Option::Some(m) => {
                    match m.kind {
                        MaterialKind::DiffuseLight => true,
                        _ => false,
                    }
                },
                Option::None => false,
            };
            if keep {
                let is_supported = match o.kind {
                    ObjectKind::XYRect | ObjectKind::XZRect | ObjectKind::YZRect => true,
                    ObjectKind::Cube => o.rotate_y.is_none(),
                    _ => false,
                };
                if !is_supported {
                    proof {
                        lemma_scene_error_none_prefix(objects@, 0, objects@.len() as int);
                        assert(important(objects@[i as int]) && !supported(objects@[i as int]));
                        assert(unsupported_important_from(objects@, i as int) == Option::Some(
                            SceneError::UnsupportedObject { index: i },
                        ));
                    }
                    return Result::Err(SceneError::UnsupportedObject { index: i });
                }
                proof {
                    assert(object_error(objects@[i as int], i as int) is None);
                    lemma_object_error_index(objects@[i as int], i as int);
                    assert(post =~= pre.push(objects@[i as int]));
                }
                let ghost old_textures = textures@;
                let mi = materials.len();
                let mat = match &o.material {
                    Option::Some(m) => build_material(m, &mut textures),
                    Option::None => {
                        proof {
                            assert(false);
                        }
                        Material::NoMaterial
                    },
                };
                let obj = build_object(o, mi);
                hitables.push(obj);
                materials.push(mat);
                proof {
                    assert forall|j: int|
                        0 <= j < materials@.len() implies material_matches(
                        #[trigger] materials@[j],
                        post[j].material->0,
                        textures@,
                    ) by {
                        if j < materials@.len() - 1 {
                            assert(post[j] == pre[j]);
                            lemma_material_matches_prefix(
                                materials@[j],
                                pre[j].material->0,
                                old_textures,
                                textures@,
                            );
                        } else {
                            assert(post[j] == objects@[i as int]);
                        }
                    }
                    assert forall|j: int|
                        0 <= j < hitables@.len() implies object_matches(
                        #[trigger] hitables@[j],
                        post[j],
                        j,
                    ) by {
                        if j < hitables@.len() - 1 {
                            assert(post[j] == pre[j]);
                        } else {
                            assert(post[j] == objects@[i as int]);
                        }
                    }
                }
            } else {
                proof {
                    assert(post =~= pre);
                }
            }
            proof {
                assert(!(important(objects@[i as int]) && !supported(objects@[i as int])));
                assert(unsupported_important_from(objects@, i as int)
                    == unsupported_important_from(objects@, i as int + 1));
            }
            i = i + 1;
        }
        proof {
            assert(objects@.take(objects@.len() as int) =~= objects@);
            assert(unsupported_important_from(objects@, objects@.len() as int) is None);
        }
        let root = Hitable::HitableList { hitables };
        let w = World {
            root,
            materials,
            textures,
            ambient_color: AmbientColor::Constant(Vector3::zero()),
        };
        Result::Ok(w)
    }

    /// The closest intersection of the ray with the scene, strictly inside
    /// the open parameter interval.
    pub fn hit(&self, ray: &Ray, t_min: Rat, t_max: Rat) -> (res: Option<HitRecord>)
        requires
            world_wf(*self),
            rat_wf(t_min),
            rat_wf(t_max),
            vec_in(ray.origin, ORIGIN_LIMIT as int),
            vec_in(ray.direction, DIR_LIMIT as int),
        ensures
            hit_post(self.root, *ray, t_min, t_max, res),
    {
        self.root.hit(ray, t_min, t_max, Ghost(GEOM_LIMIT as int))
    }

    /// The bounding box of the whole scene.
    pub fn bounding_box(&self) -> (res: Option<AABB>)
        requires
            world_wf(*self),
        ensures
            res == crate::bvh::sbbox(self.root),
    {
        self.root.bounding_box(Ghost(GEOM_LIMIT as int))
    }

    /// A direction toward a uniformly chosen important object.
    pub fn random(&self, origin: &Vector3) -> (r: Vector3)
        requires
            world_wf(*self),
            vec_in(*origin, ORIGIN_LIMIT as int),
        ensures
            crate::hitable::random_ok(self.root, *origin, r),
    {
        self.root.random(origin, Ghost(GEOM_LIMIT as int))
    }

    /// The ambient radiance seen by a ray that escapes the scene, in
    /// fixed-point ticks per channel. A constant model returns its color; a
    /// blended model mixes its endpoints linearly by `(dir.y + 1) / 2`,
    /// exactly.
    pub fn ambient_color_from_ray(&self, ray: &Ray) -> (r: (Rat, Rat, Rat))
        requires
            world_wf(*self),
            vec_in(ray.direction, DIR_LIMIT as int),
        ensures
            match self.ambient_color {
                AmbientColor::Constant(c) => r == (
                    Rat { num: c.x, den: 1i64 },
                    Rat { num: c.y, den: 1i64 },
                    Rat { num: c.z, den: 1i64 },
                ),
                AmbientColor::Blended(st, en) => {
                    let dy = ray.direction.y as int;
                    &&& r.0.num as int == st.x * (UNIT - dy) + en.x * (UNIT + dy)
                    &&& r.1.num as int == st.y * (UNIT - dy) + en.y * (UNIT + dy)
                    &&& r.2.num as int == st.z * (UNIT - dy) + en.z * (UNIT + dy)
                    &&& r.0.den == 2 * UNIT && r.1.den == 2 * UNIT && r.2.den == 2 * UNIT
                },
            },
            rat_wf(r.0),
            rat_wf(r.1),
            rat_wf(r.2),
    {
        match &self.ambient_color {
            AmbientColor::Constant(c) => (
                Rat::new(c.x, 1),
                Rat::new(c.y, 1),
                Rat::new(c.z, 1),
            ),
            AmbientColor::Blended(st, en) => {
                let dy = ray.direction.y;
                let w0 = UNIT - dy;
                let w1 = UNIT + dy;
                proof {
                    lemma_mul_bound(st.x as int, w0 as int, COLOR_LIMIT as int, 0x2000_0000);
                    lemma_mul_bound(st.y as int, w0 as int, COLOR_LIMIT as int, 0x2000_0000);
                    lemma_mul_bound(st.z as int, w0 as int, COLOR_LIMIT as int, 0x2000_0000);
                    lemma_mul_bound(en.x as int, w1 as int, COLOR_LIMIT as int, 0x2000_0000);
                    lemma_mul_bound(en.y as int, w1 as int, COLOR_LIMIT as int, 0x2000_0000);
                    lemma_mul_bound(en.z as int, w1 as int, COLOR_LIMIT as int, 0x2000_0000);
                }
                (
                    Rat::new(st.x * w0 + en.x * w1, 2 * UNIT),
                    Rat::new(st.y * w0 + en.y * w1, 2 * UNIT),
                    Rat::new(st.z * w0 + en.z * w1, 2 * UNIT),
                )
            },
        }
    }
}

} // verus!
