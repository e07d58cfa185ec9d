//! Exact-geometry behaviour: the slab test, rectangle intersections, the
//! closest-hit rule, transforms, and the hierarchy against the flat list.

use pathtracer::{medium_span, rotate_y_bbox, AABB, BVH, Hitable, Rat, Ray, Vector3, UNIT};

fn rat(num: i64, den: i64) -> Rat {
    Rat::new(num, den)
}

fn ray(ox: i64, oy: i64, oz: i64, dx: i64, dy: i64, dz: i64) -> Ray {
    Ray::new(Vector3::new(ox, oy, oz), Vector3::new(dx, dy, dz), rat(0, 1))
}

fn near() -> Rat {
    rat(1, 1000)
}

fn far() -> Rat {
    rat(1_000_000, 1)
}

fn xz_rect(x0: i64, x1: i64, z0: i64, z1: i64, k: i64, material: usize) -> Hitable {
    Hitable::XZRect { x0, x1, z0, z1, k, material }
}

#[test]
fn aabb_hit_through_box() {
    let bb = AABB::new(Vector3::new(0, 0, 0), Vector3::new(UNIT, UNIT, UNIT));
    let r = ray(UNIT / 2, UNIT / 2, -UNIT, 0, 0, UNIT);
    assert!(bb.hit(&r, near(), far()));
}

#[test]
fn aabb_miss_pointing_away() {
    let bb = AABB::new(Vector3::new(0, 0, 0), Vector3::new(UNIT, UNIT, UNIT));
    let r = ray(UNIT / 2, UNIT / 2, -UNIT, 0, 0, -UNIT);
    assert!(!bb.hit(&r, near(), far()));
}

#[test]
fn aabb_miss_beside_box() {
    let bb = AABB::new(Vector3::new(0, 0, 0), Vector3::new(UNIT, UNIT, UNIT));
    let r = ray(3 * UNIT, UNIT / 2, -UNIT, 0, 0, UNIT);
    assert!(!bb.hit(&r, near(), far()));
}

#[test]
fn aabb_interval_monotone() {
    // Shrinking the interval never turns a miss into a hit: whenever the
    // shrunk interval reports a hit, so does the wider one.
    let bb = AABB::new(Vector3::new(0, 0, 0), Vector3::new(UNIT, UNIT, UNIT));
    let r = ray(UNIT / 2, UNIT / 2, -UNIT, 0, 0, UNIT);
    let shrunk = bb.hit(&r, rat(1, 2), rat(3, 2));
    let wide = bb.hit(&r, near(), far());
    assert!(shrunk);
    assert!(wide);
    // An interval entirely before the box misses.
    assert!(!bb.hit(&r, near(), rat(1, 2)));
}

#[test]
fn xz_rect_hit_exact() {
    let rect = xz_rect(0, UNIT, 0, UNIT, UNIT, 7);
    let r = ray(UNIT / 2, 0, UNIT / 2, 0, UNIT, 0);
    let rec = rect.hit_within(&r, near(), far()).expect("must hit");
    assert_eq!(rec.t.num, UNIT);
    assert_eq!(rec.t.den, UNIT);
    assert_eq!(rec.material, 7);
    assert_eq!(rec.normal, Vector3::new(0, 1, 0));
    // u = v = 1/2 exactly.
    assert_eq!(2 * rec.u.num, rec.u.den);
    assert_eq!(2 * rec.v.num, rec.v.den);
    // The hit point is exactly origin + t * direction.
    let p = r.point_at_parameter(rec.t);
    assert_eq!(p.nx, (UNIT as i128 / 2) * rec.t.den as i128);
    assert_eq!(p.ny, (UNIT as i128) * (rec.t.den as i128));
    assert_eq!(p.den, rec.t.den as i128);
}

#[test]
fn xz_rect_miss_outside_bounds() {
    let rect = xz_rect(0, UNIT, 0, UNIT, UNIT, 7);
    let r = ray(3 * UNIT, 0, UNIT / 2, 0, UNIT, 0);
    assert!(rect.hit_within(&r, near(), far()).is_none());
}

#[test]
fn xz_rect_miss_parallel() {
    let rect = xz_rect(0, UNIT, 0, UNIT, UNIT, 7);
    let r = ray(UNIT / 2, 0, UNIT / 2, UNIT, 0, 0);
    assert!(rect.hit_within(&r, near(), far()).is_none());
}

#[test]
fn rect_boundary_counts_as_hit() {
    let rect = xz_rect(0, UNIT, 0, UNIT, UNIT, 7);
    let r = ray(0, 0, 0, 0, UNIT, 0);
    let rec = rect.hit_within(&r, near(), far()).expect("boundary hits");
    assert_eq!(rec.u.num, 0);
}

#[test]
fn flip_normals_negates_normal() {
    let rect = xz_rect(0, UNIT, 0, UNIT, UNIT, 7);
    let flipped = Hitable::FlipNormals { child: Box::new(rect) };
    let r = ray(UNIT / 2, 0, UNIT / 2, 0, UNIT, 0);
    let rec = flipped.hit_within(&r, near(), far()).expect("must hit");
    assert_eq!(rec.normal, Vector3::new(0, -1, 0));
    assert_eq!(rec.t.num, UNIT);
}

#[test]
fn closest_hit_wins() {
    let near_rect = xz_rect(0, UNIT, 0, UNIT, UNIT, 1);
    let far_rect = xz_rect(0, UNIT, 0, UNIT, 2 * UNIT, 2);
    let list = Hitable::HitableList { hitables: vec![far_rect, near_rect] };
    let r = ray(UNIT / 2, 0, UNIT / 2, 0, UNIT, 0);
    let rec = list.hit_within(&r, near(), far()).expect("must hit");
    assert_eq!(rec.material, 1);
    assert_eq!(rec.t.num, UNIT);
    assert_eq!(rec.t.den, UNIT);
}

#[test]
fn equal_hits_prefer_first() {
    let a = xz_rect(0, UNIT, 0, UNIT, UNIT, 1);
    let b = xz_rect(0, UNIT, 0, UNIT, UNIT, 2);
    let list = Hitable::HitableList { hitables: vec![a, b] };
    let r = ray(UNIT / 2, 0, UNIT / 2, 0, UNIT, 0);
    let rec = list.hit_within(&r, near(), far()).expect("must hit");
    assert_eq!(rec.material, 1);
}

#[test]
fn translate_shifts_hit() {
    let rect = xz_rect(0, UNIT, 0, UNIT, UNIT, 5);
    let moved = Hitable::Translate {
        child: Box::new(rect),
        offset: Vector3::new(UNIT, 0, 0),
    };
    // A ray over the original rectangle now misses...
    let r_old = ray(UNIT / 2, 0, UNIT / 2, 0, UNIT, 0);
    assert!(moved.hit_within(&r_old, near(), far()).is_none());
    // ...and one over the shifted position hits.
    let r_new = ray(UNIT + UNIT / 2, 0, UNIT / 2, 0, UNIT, 0);
    let rec = moved.hit_within(&r_new, near(), far()).expect("must hit");
    assert_eq!(rec.t.num, UNIT);
}

#[test]
fn stacked_translations_compose() {
    // Translate(Translate(h, a), b) hits exactly as Translate(h, a + b).
    let a = Vector3::new(UNIT, 0, -UNIT);
    let b = Vector3::new(UNIT / 2, UNIT, UNIT / 4);
    let make_rect = || xz_rect(0, UNIT, 0, UNIT, UNIT, 5);
    let nested = Hitable::Translate {
        child: Box::new(Hitable::Translate { child: Box::new(make_rect()), offset: a }),
        offset: b,
    };
    let fused = Hitable::Translate {
        child: Box::new(make_rect()),
        offset: Vector3::new(a.x + b.x, a.y + b.y, a.z + b.z),
    };
    let rays = [
        ray(UNIT + UNIT / 2 + UNIT / 4, UNIT, -UNIT / 2, 0, UNIT, 0),
        ray(2 * UNIT, UNIT, 0, 0, UNIT, 0),
        ray(0, 0, 0, UNIT / 7, UNIT, UNIT / 9),
        ray(-UNIT, -UNIT, UNIT, UNIT / 3, UNIT, -UNIT / 5),
    ];
    for r in rays.iter() {
        let h1 = nested.hit_within(r, near(), far());
        let h2 = fused.hit_within(r, near(), far());
        assert_eq!(h1, h2);
    }
}

#[test]
fn bvh_matches_list() {
    // The hierarchy reports exactly what the flat list reports, over a grid
    // of rectangles and a bundle of rays.
    let grid = || {
        let mut objs: Vec<Hitable> = Vec::new();
        for i in 0..5i64 {
            for j in 0..5i64 {
                objs.push(xz_rect(
                    i * UNIT,
                    i * UNIT + UNIT / 2,
                    j * UNIT,
                    j * UNIT + UNIT / 2,
                    UNIT + (i + j) * UNIT / 4,
                    (i * 5 + j) as usize,
                ));
            }
        }
        objs
    };
    let list = Hitable::HitableList { hitables: grid() };
    let tree = BVH::from_list(grid());
    for sx in 0..10i64 {
        for sz in 0..10i64 {
            let r = ray(sx * UNIT / 2 + UNIT / 8, 0, sz * UNIT / 2 + UNIT / 8, 0, UNIT, 0);
            let hl = list.hit_within(&r, near(), far());
            let ht = tree.hit_within(&r, near(), far());
            assert_eq!(hl.is_some(), ht.is_some());
            if let (Some(a), Some(b)) = (hl, ht) {
                // Same parameter; with all hits distinct, the same record.
                assert_eq!(
                    a.t.num as i128 * b.t.den as i128,
                    b.t.num as i128 * a.t.den as i128
                );
                assert_eq!(a, b);
            }
        }
    }
    // A slanted bundle too.
    for s in -5..5i64 {
        let r = ray(UNIT / 3, 0, UNIT / 3, s * UNIT / 7, UNIT, -s * UNIT / 11);
        let hl = list.hit_within(&r, near(), far());
        let ht = tree.hit_within(&r, near(), far());
        assert_eq!(hl, ht);
    }
}

#[test]
fn bounding_box_surrounds_children() {
    let a = xz_rect(0, UNIT, 0, UNIT, UNIT, 0);
    let b = xz_rect(2 * UNIT, 3 * UNIT, -UNIT, 0, 4 * UNIT, 1);
    let list = Hitable::HitableList { hitables: vec![a, b] };
    let bb = list.scene_bounding_box().expect("has box");
    assert!(bb.min().x <= 0 && bb.min().z <= -UNIT);
    assert!(bb.max().x >= 3 * UNIT && bb.max().y >= 4 * UNIT);
}

#[test]
fn empty_list_has_no_box() {
    let list = Hitable::HitableList { hitables: Vec::new() };
    assert!(list.scene_bounding_box().is_none());
}

#[test]
fn rect_random_points_at_surface() {
    let rect = xz_rect(0, UNIT, 0, UNIT, 2 * UNIT, 0);
    let origin = Vector3::new(0, 0, 0);
    for _ in 0..200 {
        let d = rect.random_dir(&origin);
        assert_eq!(d.y, 2 * UNIT);
        assert!(0 <= d.x && d.x <= UNIT);
        assert!(0 <= d.z && d.z <= UNIT);
    }
}

#[test]
fn list_random_picks_a_child() {
    let a = xz_rect(0, UNIT, 0, UNIT, UNIT, 0);
    let b = xz_rect(0, UNIT, 0, UNIT, 5 * UNIT, 1);
    let list = Hitable::HitableList { hitables: vec![a, b] };
    let origin = Vector3::new(0, 0, 0);
    for _ in 0..100 {
        let d = list.random_dir(&origin);
        assert!(d.y == UNIT || d.y == 5 * UNIT);
    }
}

#[test]
fn medium_span_clips_to_the_query() {
    // Entry before the query start is raised; exit past the end is lowered.
    let span = medium_span(rat(-3, 1), rat(9, 1), rat(1, 2), rat(4, 1)).expect("overlaps");
    assert_eq!((span.0.num, span.0.den), (1, 2));
    assert_eq!((span.1.num, span.1.den), (4, 1));
    // A negative entry inside the query is clamped to zero.
    let span = medium_span(rat(-3, 1), rat(9, 1), rat(-5, 1), rat(4, 1)).expect("overlaps");
    assert_eq!((span.0.num, span.0.den), (0, 1));
    // Disjoint intervals leave nothing to traverse.
    assert!(medium_span(rat(5, 1), rat(9, 1), rat(1, 2), rat(4, 1)).is_none());
    assert!(medium_span(rat(2, 1), rat(3, 1), rat(1, 1), rat(8, 1)).is_some());
    assert!(medium_span(rat(2, 1), rat(3, 1), rat(3, 1), rat(8, 1)).is_none());
    assert!(medium_span(rat(2, 1), rat(3, 1), rat(4, 1), rat(8, 1)).is_none());
}

#[test]
fn rotate_y_bbox_bounds_rotated_corners() {
    // A quarter turn (sin 1, cos 0): x takes z's extent, z takes -x's.
    let bb = AABB::new(Vector3::new(1, 0, 2), Vector3::new(3, 5, 4));
    let r = rotate_y_bbox(bb, 1, 0, 1);
    assert_eq!(r.min(), Vector3::new(2, 0, -3));
    assert_eq!(r.max(), Vector3::new(4, 5, -1));
    // A fractional rotation pair floors the lower and raises the upper
    // bounds.
    let bb = AABB::new(Vector3::new(0, 0, 0), Vector3::new(2, 1, 2));
    let r = rotate_y_bbox(bb, 1, 1, 2);
    assert_eq!(r.min(), Vector3::new(0, 0, -1));
    assert_eq!(r.max(), Vector3::new(2, 1, 1));
}

#[test]
fn rational_order_is_exact() {
    // 1/3 < 2/5 by cross multiplication, with no rounding anywhere.
    assert!(rat(1, 3).lt(&rat(2, 5)));
    assert!(!rat(2, 5).lt(&rat(1, 3)));
    assert!(rat(2, 6).le(&rat(1, 3)));
    assert!(rat(1, 3).le(&rat(2, 6)));
    // Values that differ only far below floating-point precision still
    // compare correctly.
    let a = rat(1_000_000_000_000_000_000, 3_000_000_000_000_000_000);
    let b = rat(1_000_000_000_000_000_001, 3_000_000_000_000_000_000);
    assert!(a.lt(&b));
}

#[test]
fn vector_arithmetic_is_componentwise() {
    let a = Vector3::new(1, -2, 3);
    let b = Vector3::new(10, 20, 30);
    assert_eq!(a.add(&b), Vector3::new(11, 18, 33));
    assert_eq!(b.sub(&a), Vector3::new(9, 22, 27));
    assert_eq!(a.neg(), Vector3::new(-1, 2, -3));
    assert_eq!(a.dot(&b), (10 - 40 + 90) as i128);
    assert_eq!(Vector3::zero(), Vector3::new(0, 0, 0));
}
