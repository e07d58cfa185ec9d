//! Scene validation and construction, the ambient model, materials and the
//! mixture density.

use pathtracer::{
    validate_scene, resolve_ambient, AmbientColor, AmbientDesc, AmbientKind, Cube, FieldId,
    Hitable, Material, MaterialDesc, MaterialKind, MixturePDF, ObjectDesc, ObjectKind, Rat, Ray,
    image_texel, radiance_step, RadianceStep, SceneError, Settings, TextureDesc, TextureKind,
    Vector3, World, MAX_DEPTH, UNIT,
};

fn empty_object() -> ObjectDesc {
    ObjectDesc {
        kind: ObjectKind::Unknown,
        material: None,
        position: None,
        radius: None,
        bounds: None,
        k: None,
        flip: false,
        cube_min: None,
        cube_max: None,
        rotate_y: None,
        translation: None,
        v0: None,
        v1: None,
        v2: None,
    }
}

fn constant_texture(r: i64, g: i64, b: i64) -> TextureDesc {
    TextureDesc {
        kind: TextureKind::Constant,
        color: Some(Vector3::new(r, g, b)),
        scale: None,
        turbulence: None,
    }
}

fn lambertian(r: i64, g: i64, b: i64) -> MaterialDesc {
    MaterialDesc {
        kind: MaterialKind::Lambertian,
        texture: Some(constant_texture(r, g, b)),
        ref_index: None,
        albedo: None,
        fuzz: None,
    }
}

fn light(strength: i64) -> MaterialDesc {
    MaterialDesc {
        kind: MaterialKind::DiffuseLight,
        texture: Some(constant_texture(strength, strength, strength)),
        ref_index: None,
        albedo: None,
        fuzz: None,
    }
}

fn xz_rect_desc(x0: i64, x1: i64, z0: i64, z1: i64, k: i64, m: MaterialDesc) -> ObjectDesc {
    ObjectDesc {
        kind: ObjectKind::XZRect,
        material: Some(m),
        bounds: Some((x0, x1, z0, z1)),
        k: Some(k),
        ..empty_object()
    }
}

/// A Cornell-box-like set of walls with one area light, in fixed-point
/// scene units (one world unit is `UNIT` ticks).
fn cornell_objects() -> Vec<ObjectDesc> {
    let s = UNIT / 64;  // keeps 0..555 within the coordinate budget
    let white = || lambertian(UNIT, UNIT, UNIT);
    vec![
        // floor, ceiling, back wall
        xz_rect_desc(0, 555 * s, 0, 555 * s, 0, white()),
        ObjectDesc { flip: true, ..xz_rect_desc(0, 555 * s, 0, 555 * s, 555 * s, white()) },
        ObjectDesc {
            kind: ObjectKind::XYRect,
            material: Some(white()),
            bounds: Some((0, 555 * s, 0, 555 * s)),
            k: Some(555 * s),
            flip: true,
            ..empty_object()
        },
        // side walls
        ObjectDesc {
            kind: ObjectKind::YZRect,
            material: Some(white()),
            bounds: Some((0, 555 * s, 0, 555 * s)),
            k: Some(0),
            ..empty_object()
        },
        ObjectDesc {
            kind: ObjectKind::YZRect,
            material: Some(white()),
            bounds: Some((0, 555 * s, 0, 555 * s)),
            k: Some(555 * s),
            flip: true,
            ..empty_object()
        },
        // the light
        ObjectDesc {
            flip: true,
            ..xz_rect_desc(213 * s, 343 * s, 227 * s, 332 * s, 554 * s, light(15 * UNIT))
        },
    ]
}

#[test]
fn cornell_scene_validates_and_builds() {
    let objects = cornell_objects();
    assert!(validate_scene(&objects).is_none());
    let world = World::from_scene(&objects, AmbientColor::Constant(Vector3::zero()))
        .expect("scene builds");
    // One material per object; the light is material 5 and the only
    // important sample source.
    for (i, m) in world.materials.iter().enumerate() {
        assert_eq!(m.sample(), i == 5);
    }
    // A ray from the box center straight up hits the light before the
    // ceiling.
    let s = UNIT / 64;
    let r = Ray::new(
        Vector3::new(278 * s, 50 * s, 278 * s),
        Vector3::new(0, UNIT, 0),
        Rat::new(0, 1),
    );
    let rec = world.hit(&r, Rat::new(1, 1000), Rat::new(1_000_000, 1)).expect("hits");
    assert_eq!(rec.material, 5);
    // The light faces downward (flipped).
    assert_eq!(rec.normal, Vector3::new(0, -1, 0));
}

#[test]
fn importance_world_keeps_only_lights() {
    let objects = cornell_objects();
    let sample_world = World::from_scene_samples(&objects).expect("builds");
    assert_eq!(sample_world.materials.len(), 1);
    assert!(sample_world.materials[0].sample());
    match &sample_world.root {
        Hitable::HitableList { hitables } => assert_eq!(hitables.len(), 1),
        _ => panic!("root is a list"),
    }
}

#[test]
fn unknown_material_kind_is_reported() {
    let mut objects = cornell_objects();
    objects[2].material = Some(MaterialDesc {
        kind: MaterialKind::Unknown,
        texture: None,
        ref_index: None,
        albedo: None,
        fuzz: None,
    });
    assert_eq!(
        validate_scene(&objects),
        Some(SceneError::UnknownMaterialKind { index: 2 })
    );
}

#[test]
fn missing_fields_are_reported_in_order() {
    let sphere = ObjectDesc {
        kind: ObjectKind::Sphere,
        material: Some(lambertian(UNIT, 0, 0)),
        ..empty_object()
    };
    let objects = vec![cornell_objects().remove(0), sphere];
    assert_eq!(
        validate_scene(&objects),
        Some(SceneError::MissingField { index: 1, field: FieldId::Position })
    );
}

#[test]
fn metal_requires_albedo_and_fuzz() {
    let mut o = cornell_objects().remove(0);
    o.material = Some(MaterialDesc {
        kind: MaterialKind::Metal,
        texture: None,
        ref_index: None,
        albedo: Some(Vector3::new(UNIT, UNIT, UNIT)),
        fuzz: None,
    });
    assert_eq!(
        validate_scene(&vec![o]),
        Some(SceneError::MissingField { index: 0, field: FieldId::Fuzz })
    );
}

#[test]
fn degenerate_rect_bounds_are_invalid() {
    let mut o = cornell_objects().remove(0);
    o.bounds = Some((UNIT, UNIT, 0, UNIT));
    assert_eq!(
        validate_scene(&vec![o]),
        Some(SceneError::InvalidField { index: 0, field: FieldId::Bounds })
    );
}

#[test]
fn sphere_is_outside_the_exact_model() {
    let sphere = ObjectDesc {
        kind: ObjectKind::Sphere,
        material: Some(lambertian(UNIT, 0, 0)),
        position: Some(Vector3::new(0, 0, -UNIT)),
        radius: Some(UNIT / 2),
        ..empty_object()
    };
    let objects = vec![sphere];
    assert!(validate_scene(&objects).is_none());
    match World::from_scene(&objects, AmbientColor::Constant(Vector3::zero())) {
        Err(SceneError::UnsupportedObject { index: 0 }) => {},
        other => panic!("expected an unsupported-object error, got {:?}", other.is_ok()),
    }
}

#[test]
fn cube_builds_six_faces() {
    let cube = Cube::new(
        Vector3::new(0, 0, 0),
        Vector3::new(UNIT, UNIT, UNIT),
        3,
    );
    match &cube {
        Hitable::HitableList { hitables } => assert_eq!(hitables.len(), 6),
        _ => panic!("cube is a list of faces"),
    }
    // A ray from +z hits the front face with its outward normal.
    let r = Ray::new(
        Vector3::new(UNIT / 2, UNIT / 2, 2 * UNIT),
        Vector3::new(0, 0, -UNIT),
        Rat::new(0, 1),
    );
    let rec = cube.hit_within(&r, Rat::new(1, 1000), Rat::new(1_000_000, 1)).expect("hits");
    assert_eq!(rec.t.num, UNIT);
    assert_eq!(rec.t.den, UNIT);
    assert_eq!(rec.normal, Vector3::new(0, 0, 1));
    assert_eq!(rec.material, 3);
}

#[test]
fn blended_ambient_matches_expected_horizon() {
    // Ambient Blended((1,1,1), (0.5,0.7,1)): a horizontal ray sees the even
    // mix (0.75, 0.85, 1.0); a straight-down ray sees the start color.
    let start = Vector3::new(UNIT, UNIT, UNIT);
    let end = Vector3::new(UNIT / 2, 45875, UNIT);  // 0.7 rounded to ticks
    let objects: Vec<ObjectDesc> = Vec::new();
    let world = World::from_scene(&objects, AmbientColor::Blended(start, end)).expect("builds");

    let horiz = Ray::new(Vector3::zero(), Vector3::new(0, 0, -UNIT), Rat::new(0, 1));
    let (r, g, b) = world.ambient_color_from_ray(&horiz);
    let to_f = |c: Rat| c.num as f64 / c.den as f64 / UNIT as f64;
    assert!((to_f(r) - 0.75).abs() < 1e-3);
    assert!((to_f(g) - 0.85).abs() < 1e-3);
    assert!((to_f(b) - 1.0).abs() < 1e-3);

    let down = Ray::new(Vector3::zero(), Vector3::new(0, -UNIT, 0), Rat::new(0, 1));
    let (r, g, b) = world.ambient_color_from_ray(&down);
    assert!((to_f(r) - 1.0).abs() < 1e-6);
    assert!((to_f(g) - 1.0).abs() < 1e-6);
    assert!((to_f(b) - 1.0).abs() < 1e-6);

    // An empty scene never reports a hit.
    assert!(world.hit(&horiz, Rat::new(1, 1000), Rat::new(1_000_000, 1)).is_none());
}

#[test]
fn resolve_ambient_defaults_to_black() {
    assert_eq!(
        resolve_ambient(&None),
        Some(AmbientColor::Constant(Vector3::zero()))
    );
    let unknown = AmbientDesc { kind: AmbientKind::Unknown, color: None, start: None, end: None };
    assert_eq!(
        resolve_ambient(&Some(unknown)),
        Some(AmbientColor::Constant(Vector3::zero()))
    );
    let incomplete = AmbientDesc {
        kind: AmbientKind::Blended,
        color: None,
        start: Some(Vector3::new(UNIT, UNIT, UNIT)),
        end: None,
    };
    assert_eq!(resolve_ambient(&Some(incomplete)), None);
}

#[test]
fn mixture_density_is_exact_half_sum() {
    // 0.5 * (1/2 + 1/4) == 3/8, exactly.
    let v0 = Rat::new(1, 2);
    let v1 = Rat::new(1, 4);
    let m = MixturePDF::value(v0, v1);
    assert_eq!(m.num, 1 * 4 + 1 * 2);
    assert_eq!(m.den, 2 * (2 * 4));
    assert_eq!(m.num as f64 / m.den as f64, 0.375);
    for _ in 0..50 {
        assert!(MixturePDF::pick_component() < 2);
    }
}

#[test]
fn metal_fuzz_is_clamped() {
    let m = Material::metal(Vector3::new(UNIT, UNIT, UNIT), 3 * UNIT);
    match m {
        Material::Metal { fuzz, .. } => assert_eq!(fuzz, UNIT),
        _ => panic!("metal"),
    }
    let m2 = Material::metal(Vector3::new(UNIT, UNIT, UNIT), UNIT / 4);
    match m2 {
        Material::Metal { fuzz, .. } => assert_eq!(fuzz, UNIT / 4),
        _ => panic!("metal"),
    }
}

#[test]
fn diffuse_light_emits_only_toward_front_face() {
    let l = Material::DiffuseLight { texture: 0 };
    let up = Vector3::new(0, 1, 0);
    assert!(l.emits(&up, &Vector3::new(0, -UNIT, 0)));
    assert!(!l.emits(&up, &Vector3::new(0, UNIT, 0)));
    let lam = Material::Lambertian { texture: 0 };
    assert!(!lam.emits(&up, &Vector3::new(0, -UNIT, 0)));
}

#[test]
fn settings_apply_defaults() {
    let s = Settings::from_commandline(None, None, None, None, Some("scene.toml".to_string()), None)
        .expect("scene given");
    assert_eq!(s.width(), 200);
    assert_eq!(s.height(), 100);
    assert_eq!(s.samples(), 100);
    assert_eq!(s.export_path().as_str(), "output.png");
    assert_eq!(s.scene_path().as_str(), "scene.toml");
    assert_eq!(s.threads(), 4);
}

#[test]
fn settings_require_a_scene() {
    assert!(Settings::from_commandline(Some(64), None, None, None, None, None).is_none());
    let s = Settings::from_commandline(
        Some(64),
        Some(32),
        Some(10),
        Some("out.png".to_string()),
        Some("s.toml".to_string()),
        Some(8),
    )
    .expect("complete");
    assert_eq!(s.width(), 64);
    assert_eq!(s.height(), 32);
    assert_eq!(s.samples(), 10);
    assert_eq!(s.threads(), 8);
}

#[test]
fn perlin_tables_are_permutations() {
    let p = pathtracer::Perlin::new();
    for table in [&p.perm_x, &p.perm_y, &p.perm_z] {
        assert_eq!(table.len(), 256);
        let mut sorted = table.clone();
        sorted.sort();
        let expected: Vec<usize> = (0..256).collect();
        assert_eq!(sorted, expected);
    }
    for corner in 0..16u8 {
        assert!(p.gradient_index(corner, corner.wrapping_add(1), 255 - corner) < 256);
    }
}

#[test]
fn radiance_decisions_follow_the_table() {
    assert_eq!(radiance_step(false, 0, true, true), RadianceStep::Ambient);
    assert_eq!(radiance_step(true, MAX_DEPTH, true, true), RadianceStep::EmittedOnly);
    assert_eq!(radiance_step(true, 3, false, false), RadianceStep::EmittedOnly);
    assert_eq!(radiance_step(true, 3, true, true), RadianceStep::Specular);
    assert_eq!(radiance_step(true, 3, true, false), RadianceStep::MixtureSample);
}

#[test]
fn image_texel_clamps_and_floors() {
    // u = 0.5, v = 0.25 on an 8x4 image: column 4; row floor((1-0.25)*4) = 3.
    let (i, j) = image_texel(Rat::new(1, 2), Rat::new(1, 4), 8, 4);
    assert_eq!((i, j), (4, 3));
    // Out-of-range coordinates clamp to the image.
    let (i, j) = image_texel(Rat::new(-3, 2), Rat::new(9, 2), 8, 4);
    assert_eq!((i, j), (0, 0));
    let (i, j) = image_texel(Rat::new(7, 2), Rat::new(-1, 2), 8, 4);
    assert_eq!((i, j), (7, 3));
    // v = 0 selects the last row, exactly at the clamped edge.
    let (_, j) = image_texel(Rat::new(0, 1), Rat::new(0, 1), 8, 4);
    assert_eq!(j, 3);
}

#[test]
fn hit_material_indexes_the_table() {
    // Every record a built world reports can address its material table.
    let objects = cornell_objects();
    let world = World::from_scene(&objects, AmbientColor::Constant(Vector3::zero()))
        .expect("scene builds");
    let s = UNIT / 64;
    for step in 0..16i64 {
        let r = Ray::new(
            Vector3::new(278 * s, 280 * s, 278 * s),
            Vector3::new((step - 8) * UNIT / 8, UNIT, (8 - step) * UNIT / 16),
            Rat::new(0, 1),
        );
        if let Some(rec) = world.hit(&r, Rat::new(1, 1000), Rat::new(1_000_000, 1)) {
            assert!(rec.material < world.materials.len());
        }
    }
}

#[test]
fn importance_world_samples_the_flipped_light() {
    // The Cornell light is a flipped rectangle; sampling must delegate
    // through the flip to the rectangle's surface, not fall back to a
    // fixed direction.
    let objects = cornell_objects();
    let sample_world = World::from_scene_samples(&objects).expect("builds");
    let s = UNIT / 64;
    let origin = Vector3::new(278 * s, 50 * s, 278 * s);
    for _ in 0..100 {
        let d = sample_world.random(&origin);
        assert_eq!(d.y, 554 * s - origin.y);
        assert!(213 * s - origin.x <= d.x && d.x <= 343 * s - origin.x);
        assert!(227 * s - origin.z <= d.z && d.z <= 332 * s - origin.z);
    }
}

#[test]
fn importance_world_ignores_unsupported_non_lights() {
    // A sphere that is not a light cannot fail the importance build: only
    // importance-sampled objects must fit the exact model.
    let sphere = ObjectDesc {
        kind: ObjectKind::Sphere,
        material: Some(lambertian(UNIT, 0, 0)),
        position: Some(Vector3::new(0, 0, -UNIT)),
        radius: Some(UNIT / 2),
        ..empty_object()
    };
    let mut objects = cornell_objects();
    objects.push(sphere);
    // The full world refuses the sphere...
    assert!(World::from_scene(&objects, AmbientColor::Constant(Vector3::zero())).is_err());
    // ...but the importance world keeps exactly the one light.
    let sample_world = World::from_scene_samples(&objects).expect("builds");
    assert_eq!(sample_world.materials.len(), 1);
    assert!(sample_world.materials[0].sample());
}
