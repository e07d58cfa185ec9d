//! The polymorphic geometry tree and its exact intersection semantics.
//!
//! `Hitable::hit` is specified against the relation [`hit_rel`]: a returned
//! record is a true intersection of the tree, its parameter lies strictly
//! inside the query interval, and no intersection of the tree lies strictly
//! closer. The bounding-volume nodes are pure accelerators: their pruning is
//! justified by the box facts carried in the well-formedness predicate.

use vstd::prelude::*;
use crate::math::{Rat, Ray, Vector3, rat_wf, rat_lt, rat_eq, vec_in,
    lemma_frac_lt_trans, lemma_frac_lt_le_trans, lemma_frac_total};
use crate::aabb::{AABB, box_pierced_at, box_hit_between};
use crate::random::random_u32;

verus! {

/// Bound on the coordinates of the geometry, and on the budget that nested
/// translations may consume.
pub const GEOM_LIMIT: i64 = 0x4000_0000;

/// Bound on the components of a query ray's origin.
pub const ORIGIN_LIMIT: i64 = 0x8000_0000;

/// Bound on the components of a query ray's direction.
pub const DIR_LIMIT: i64 = 0x1000_0000;

/// What a hit query reports: the ray parameter, the surface parameters,
/// the outward normal and the index of the material that was hit.
#[derive(Clone, Copy, Debug, PartialEq, Eq, Structural)]
pub struct HitRecord {
    pub t: Rat,
    pub u: Rat,
    pub v: Rat,
    pub normal: Vector3,
    pub material: usize,
}

/// The geometry tree. Composites own their children.
pub enum Hitable {
    XYRect { x0: i64, x1: i64, y0: i64, y1: i64, k: i64, material: usize },
    XZRect { x0: i64, x1: i64, z0: i64, z1: i64, k: i64, material: usize },
    YZRect { y0: i64, y1: i64, z0: i64, z1: i64, k: i64, material: usize },
    FlipNormals { child: Box<Hitable> },
    Translate { child: Box<Hitable>, offset: Vector3 },
    HitableList { hitables: Vec<Hitable> },
    BVHNode { left: Box<Hitable>, right: Box<Hitable>, bbox: AABB },
}

/// The numerator of the plane-crossing parameter `(k - o) / d`, normalized
/// to a positive denominator.
pub open spec fn plane_t_num(k: int, o: int, d: int) -> int {
    if d > 0 {
        k - o
    } else {
        o - k
    }
}

/// The corresponding positive denominator.
pub open spec fn plane_t_den(d: int) -> int {
    if d > 0 {
        d
    } else {
        -d
    }
}

/// The record `rec` is a true intersection of an axis-aligned rectangle:
/// the plane of constant coordinate `k` (origin `ko`, direction `kd` on that
/// axis) is crossed at `rec.t`, and both in-plane coordinates, given by
/// origin and direction pairs `(ao, ad)` and `(bo, bd)`, fall inside
/// `[a0, a1]` and `[b0, b1]`. `rec.u` and `rec.v` are the normalized
/// in-plane coordinates.
pub open spec fn rect_rel(
    a0: int, a1: int, b0: int, b1: int, k: int,
    ao: int, ad: int, bo: int, bd: int, ko: int, kd: int,
    rec: HitRecord,
) -> bool {
    let tn = rec.t.num as int;
    let td = rec.t.den as int;
    &&& kd != 0
    &&& tn == plane_t_num(k, ko, kd)
    &&& td == plane_t_den(kd)
    &&& a0 * td <= ao * td + tn * ad <= a1 * td
    &&& b0 * td <= bo * td + tn * bd <= b1 * td
    &&& rec.u.num as int == ao * td + tn * ad - a0 * td
    &&& rec.u.den as int == (a1 - a0) * td
    &&& rec.v.num as int == bo * td + tn * bd - b0 * td
    &&& rec.v.den as int == (b1 - b0) * td
}

/// Shifts a ray's origin by `-offset` (the transform a translated object
/// applies before delegating to its child).
pub open spec fn shift_ray(r: Ray, offset: Vector3) -> Ray {
    Ray {
        origin: Vector3 {
            x: (r.origin.x - offset.x) as i64,
            y: (r.origin.y - offset.y) as i64,
            z: (r.origin.z - offset.z) as i64,
        },
        direction: r.direction,
        time: r.time,
    }
}

/// The same record with the normal negated.
pub open spec fn flip_rec(rec: HitRecord) -> HitRecord {
    HitRecord {
        normal: Vector3 {
            x: (-(rec.normal.x as int)) as i64,
            y: (-(rec.normal.y as int)) as i64,
            z: (-(rec.normal.z as int)) as i64,
        },
        ..rec
    }
}

/// `rec` is a true intersection of the tree `h` by the ray `r`, at the ray
/// parameter `rec.t`, regardless of any query interval.
pub open spec fn hit_rel(h: Hitable, r: Ray, rec: HitRecord) -> bool
    decreases h,
{
    match h {
        Hitable::XYRect { x0, x1, y0, y1, k, material } => {
            &&& rect_rel(
                x0 as int, x1 as int, y0 as int, y1 as int, k as int,
                r.origin.x as int, r.direction.x as int,
                r.origin.y as int, r.direction.y as int,
                r.origin.z as int, r.direction.z as int,
                rec,
            )
            &&& rec.normal == (Vector3 { x: 0i64, y: 0i64, z: 1i64 })
            &&& rec.material == material
        },
        Hitable::XZRect { x0, x1, z0, z1, k, material } => {
            &&& rect_rel(
                x0 as int, x1 as int, z0 as int, z1 as int, k as int,
                r.origin.x as int, r.direction.x as int,
                r.origin.z as int, r.direction.z as int,
                r.origin.y as int, r.direction.y as int,
                rec,
            )
            &&& rec.normal == (Vector3 { x: 0i64, y: 1i64, z: 0i64 })
            &&& rec.material == material
        },
        Hitable::YZRect { y0, y1, z0, z1, k, material } => {
            &&& rect_rel(
                y0 as int, y1 as int, z0 as int, z1 as int, k as int,
                r.origin.y as int, r.direction.y as int,
                r.origin.z as int, r.direction.z as int,
                r.origin.x as int, r.direction.x as int,
                rec,
            )
            &&& rec.normal == (Vector3 { x: 1i64, y: 0i64, z: 0i64 })
            &&& rec.material == material
        },
        Hitable::FlipNormals { child } => hit_rel(*child, r, flip_rec(rec)),
        Hitable::Translate { child, offset } => hit_rel(*child, shift_ray(r, offset), rec),
        Hitable::HitableList { hitables } => exists|i: int|
            0 <= i < hitables.len() && hit_rel(#[trigger] hitables[i], r, rec),
        Hitable::BVHNode { left, right, bbox } => hit_rel(*left, r, rec) || hit_rel(
            *right,
            r,
            rec,
        ),
    }
}

/// The largest component magnitude of a vector.
pub open spec fn vabs_max(v: Vector3) -> int {
    let ax = if v.x as int >= 0 { v.x as int } else { -(v.x as int) };
    let ay = if v.y as int >= 0 { v.y as int } else { -(v.y as int) };
    let az = if v.z as int >= 0 { v.z as int } else { -(v.z as int) };
    if ax >= ay && ax >= az {
        ax
    } else if ay >= az {
        ay
    } else {
        az
    }
}

/// Well-formedness of a geometry tree within the coordinate budget `m`:
/// all coordinates fit in the budget, rectangles are non-degenerate,
/// nested translations consume the budget they use, and every
/// bounding-volume node carries a box that every intersection of either
/// child pierces.
pub open spec fn hwf(h: Hitable, m: int) -> bool
    decreases h,
{
    match h {
        Hitable::XYRect { x0, x1, y0, y1, k, material } => {
            &&& 0 <= m <= GEOM_LIMIT as int
            &&& -m <= x0 < x1 <= m
            &&& -m <= y0 < y1 <= m
            &&& -m <= k <= m
        },
        Hitable::XZRect { x0, x1, z0, z1, k, material } => {
            &&& 0 <= m <= GEOM_LIMIT as int
            &&& -m <= x0 < x1 <= m
            &&& -m <= z0 < z1 <= m
            &&& -m <= k <= m
        },
        Hitable::YZRect { y0, y1, z0, z1, k, material } => {
            &&& 0 <= m <= GEOM_LIMIT as int
            &&& -m <= y0 < y1 <= m
            &&& -m <= z0 < z1 <= m
            &&& -m <= k <= m
        },
        Hitable::FlipNormals { child } => {
            &&& 0 <= m <= GEOM_LIMIT as int
            &&& hwf(*child, m)
        },
        Hitable::Translate { child, offset } => {
            &&& 0 <= m <= GEOM_LIMIT as int
            &&& vabs_max(offset) <= m
            &&& hwf(*child, m - vabs_max(offset))
        },
        Hitable::HitableList { hitables } => {
            &&& 0 <= m <= GEOM_LIMIT as int
            &&& forall|i: int| 0 <= i < hitables.len() ==> hwf(#[trigger] hitables[i], m)
        },
        Hitable::BVHNode { left, right, bbox } => {
            &&& 0 <= m <= GEOM_LIMIT as int
            &&& hwf(*left, m)
            &&& hwf(*right, m)
            &&& vec_in(bbox.min, m + 1)
            &&& vec_in(bbox.max, m + 1)
            &&& forall|ray: Ray, rec: HitRecord|
                ray_ok(ray, m) && #[trigger] hit_rel(*left, ray, rec) ==> box_pierced_at(
                    bbox,
                    ray,
                    rec.t.num as int,
                    rec.t.den as int,
                )
            &&& forall|ray: Ray, rec: HitRecord|
                ray_ok(ray, m) && #[trigger] hit_rel(*right, ray, rec) ==> box_pierced_at(
                    bbox,
                    ray,
                    rec.t.num as int,
                    rec.t.den as int,
                )
        },
    }
}

/// The ray's coordinates leave room for the translations the tree with
/// remaining budget `m` may still apply.
pub open spec fn ray_ok(r: Ray, m: int) -> bool {
    &&& vec_in(r.origin, ORIGIN_LIMIT as int + (GEOM_LIMIT as int - m))
    &&& vec_in(r.direction, DIR_LIMIT as int)
}

/// Numeric bounds that every record returned by a hit query satisfies.
pub open spec fn rec_bounds(rec: HitRecord) -> bool {
    &&& -0x2_0000_0000 <= rec.t.num <= 0x2_0000_0000
    &&& 0 < rec.t.den <= DIR_LIMIT
    &&& rat_wf(rec.u)
    &&& rat_wf(rec.v)
    &&& vec_in(rec.normal, 1)
}

/// `rec` is an intersection of `h` with parameter strictly inside
/// `(tmin, tmax)`.
pub open spec fn hit_in(h: Hitable, r: Ray, tmin: Rat, tmax: Rat, rec: HitRecord) -> bool {
    hit_rel(h, r, rec) && rat_lt(tmin, rec.t) && rat_lt(rec.t, tmax)
}

/// The contract of a hit query: `None` means no intersection lies strictly
/// inside the interval; `Some(rec)` is an intersection inside the interval
/// than which none is strictly closer.
pub open spec fn hit_post(
    h: Hitable,
    r: Ray,
    tmin: Rat,
    tmax: Rat,
    res: Option<HitRecord>,
) -> bool {
    match res {
        Option::None => forall|rec2: HitRecord| !hit_in(h, r, tmin, tmax, rec2),
        Option::Some(rec) => {
            &&& hit_rel(h, r, rec)
            &&& rat_lt(tmin, rec.t)
            &&& rat_lt(rec.t, tmax)
            &&& rec_bounds(rec)
            &&& forall|rec2: HitRecord| !hit_in(h, r, tmin, rec.t, rec2)
        },
    }
}

/// Bounded products, used to discharge the fixed-point overflow obligations.
proof fn lemma_mul_abs(a: int, b: int, aa: int, bb: int)
    by (nonlinear_arith)
    requires
        0 <= aa,
        0 <= bb,
        -aa <= a <= aa,
        -bb <= b <= bb,
    ensures
        -(aa * bb) <= a * b <= aa * bb,
{
}

/// Any true intersection has a positive parameter denominator.
pub proof fn lemma_hit_rel_den(h: Hitable, r: Ray, rec: HitRecord)
    requires
        hit_rel(h, r, rec),
    ensures
        0 < rec.t.den,
    decreases h,
{
    match h {
        Hitable::XYRect { .. } => {},
        Hitable::XZRect { .. } => {},
        Hitable::YZRect { .. } => {},
        Hitable::FlipNormals { child } => {
            lemma_hit_rel_den(*child, r, flip_rec(rec));
        },
        Hitable::Translate { child, offset } => {
            lemma_hit_rel_den(*child, shift_ray(r, offset), rec);
        },
        Hitable::HitableList { hitables } => {
            let i = choose|i: int| 0 <= i < hitables.len() && hit_rel(#[trigger] hitables[i], r, rec);
            lemma_hit_rel_den(hitables[i], r, rec);
        },
        Hitable::BVHNode { left, right, bbox } => {
            if hit_rel(*left, r, rec) {
                lemma_hit_rel_den(*left, r, rec);
            } else {
                lemma_hit_rel_den(*right, r, rec);
            }
        },
    }
}

impl Hitable {
    /// Intersects the ray with the tree over the open parameter interval
    /// `(t_min, t_max)` and returns the closest intersection, if any.
    pub fn hit(&self, ray: &Ray, t_min: Rat, t_max: Rat, m: Ghost<int>) -> (res: Option<
        HitRecord,
    >)
        requires
            hwf(*self, m@),
            ray_ok(*ray, m@),
            rat_wf(t_min),
            rat_wf(t_max),
        ensures
            hit_post(*self, *ray, t_min, t_max, res),
        decreases *self, 1nat,
    {
        match self {
            Hitable::XYRect { x0, x1, y0, y1, k, material } => {
                rect_hit(
                    *x0, *x1, *y0, *y1, *k, *material,
                    ray.origin.x, ray.direction.x,
                    ray.origin.y, ray.direction.y,
                    ray.origin.z, ray.direction.z,
                    t_min, t_max,
                    Vector3::new(0, 0, 1),
                    Ghost(*self), Ghost(*ray), Ghost(m@),
                )
            },
            Hitable::XZRect { x0, x1, z0, z1, k, material } => {
                rect_hit(
                    *x0, *x1, *z0, *z1, *k, *material,
                    ray.origin.x, ray.direction.x,
                    ray.origin.z, ray.direction.z,
                    ray.origin.y, ray.direction.y,
                    t_min, t_max,
                    Vector3::new(0, 1, 0),
                    Ghost(*self), Ghost(*ray), Ghost(m@),
                )
            },
            Hitable::YZRect { y0, y1, z0, z1, k, material } => {
                rect_hit(
                    *y0, *y1, *z0, *z1, *k, *material,
                    ray.origin.y, ray.direction.y,
                    ray.origin.z, ray.direction.z,
                    ray.origin.x, ray.direction.x,
                    t_min, t_max,
                    Vector3::new(1, 0, 0),
                    Ghost(*self), Ghost(*ray), Ghost(m@),
                )
            },
            Hitable::FlipNormals { child } => {
                match child.hit(ray, t_min, t_max, m) {
                    Option::Some(rec) => {
                        let flipped = HitRecord {
                            normal: Vector3::new(-rec.normal.x, -rec.normal.y, -rec.normal.z),
                            ..rec
                        };
                        proof {
                            assert(flip_rec(flipped) == rec);
                            assert forall|rec2: HitRecord| !hit_in(
                                *self,
                                *ray,
                                t_min,
                                flipped.t,
                                rec2,
                            ) by {
                                if hit_in(*self, *ray, t_min, flipped.t, rec2) {
                                    assert(hit_in(**child, *ray, t_min, rec.t, flip_rec(rec2)));
                                }
                            }
                        }
                        Option::Some(flipped)
                    },
                    Option::None => {
                        proof {
                            assert forall|rec2: HitRecord| !hit_in(
                                *self,
                                *ray,
                                t_min,
                                t_max,
                                rec2,
                            ) by {
                                if hit_in(*self, *ray, t_min, t_max, rec2) {
                                    assert(hit_in(**child, *ray, t_min, t_max, flip_rec(rec2)));
                                }
                            }
                        }
                        Option::None
                    },
                }
            },
            Hitable::Translate { child, offset } => {
                let moved = Ray::new(
                    Vector3::new(
                        ray.origin.x - offset.x,
                        ray.origin.y - offset.y,
                        ray.origin.z - offset.z,
                    ),
                    ray.direction,
                    ray.time,
                );
                proof {
                    assert(moved == shift_ray(*ray, *offset));
                }
                let res = child.hit(&moved, t_min, t_max, Ghost(m@ - vabs_max(*offset)));
                proof {
                    match res {
                        Option::Some(rec) => {
                            assert(hit_rel(*self, *ray, rec));
                            assert forall|rec2: HitRecord| !hit_in(
                                *self,
                                *ray,
                                t_min,
                                rec.t,
                                rec2,
                            ) by {
                                if hit_in(*self, *ray, t_min, rec.t, rec2) {
                                    assert(hit_in(**child, moved, t_min, rec.t, rec2));
                                }
                            }
                        },
                        Option::None => {
                            assert forall|rec2: HitRecord| !hit_in(
                                *self,
                                *ray,
                                t_min,
                                t_max,
                                rec2,
                            ) by {
                                if hit_in(*self, *ray, t_min, t_max, rec2) {
                                    assert(hit_in(**child, moved, t_min, t_max, rec2));
                                }
                            }
                        },
                    }
                }
                res
            },
            Hitable::HitableList { hitables } => {
                list_hit(hitables, ray, t_min, t_max, Ghost(*self), Ghost(m@))
            },
            Hitable::BVHNode { left, right, bbox } => {
                if !bbox.hit(ray, t_min, t_max) {
                    proof {
                        assert forall|rec2: HitRecord| !hit_in(*self, *ray, t_min, t_max, rec2) by {
                            if hit_in(*self, *ray, t_min, t_max, rec2) {
                                if hit_rel(**left, *ray, rec2) {
                                    assert(box_pierced_at(
                                        *bbox,
                                        *ray,
                                        rec2.t.num as int,
                                        rec2.t.den as int,
                                    ));
                                } else {
                                    assert(hit_rel(**right, *ray, rec2));
                                    assert(box_pierced_at(
                                        *bbox,
                                        *ray,
                                        rec2.t.num as int,
                                        rec2.t.den as int,
                                    ));
                                }
                                assert(box_hit_between(
                                    *bbox,
                                    *ray,
                                    t_min,
                                    t_max,
                                    rec2.t.num as int,
                                    rec2.t.den as int,
                                ));
                            }
                        }
                    }
                    Option::None
                } else {
                    let hit_left = left.hit(ray, t_min, t_max, m);
                    let hit_right = right.hit(ray, t_min, t_max, m);
                    match (hit_left, hit_right) {
                        (Option::Some(l), Option::Some(r)) => {
                            if l.t.lt(&r.t) {
                                proof {
                                    assert forall|rec2: HitRecord| !hit_in(
                                        *self,
                                        *ray,
                                        t_min,
                                        l.t,
                                        rec2,
                                    ) by {
                                        if hit_in(*self, *ray, t_min, l.t, rec2) {
                                            lemma_hit_rel_den(*self, *ray, rec2);
                                            if hit_rel(**right, *ray, rec2) {
                                                lemma_frac_lt_trans(
                                                    rec2.t.num as int, rec2.t.den as int,
                                                    l.t.num as int, l.t.den as int,
                                                    r.t.num as int, r.t.den as int,
                                                );
                                                assert(hit_in(**right, *ray, t_min, r.t, rec2));
                                            } else {
                                                assert(hit_in(**left, *ray, t_min, l.t, rec2));
                                            }
                                        }
                                    }
                                }
                                Option::Some(l)
                            } else {
                                proof {
                                    lemma_frac_total(
                                        l.t.num as int, l.t.den as int,
                                        r.t.num as int, r.t.den as int,
                                    );
                                    assert forall|rec2: HitRecord| !hit_in(
                                        *self,
                                        *ray,
                                        t_min,
                                        r.t,
                                        rec2,
                                    ) by {
                                        if hit_in(*self, *ray, t_min, r.t, rec2) {
                                            lemma_hit_rel_den(*self, *ray, rec2);
                                            if hit_rel(**left, *ray, rec2) {
                                                lemma_frac_lt_le_trans(
                                                    rec2.t.num as int, rec2.t.den as int,
                                                    r.t.num as int, r.t.den as int,
                                                    l.t.num as int, l.t.den as int,
                                                );
                                                assert(hit_in(**left, *ray, t_min, l.t, rec2));
                                            } else {
                                                assert(hit_in(**right, *ray, t_min, r.t, rec2));
                                            }
                                        }
                                    }
                                }
                                Option::Some(r)
                            }
                        },
                        (Option::Some(l), Option::None) => {
                            proof {
                                assert forall|rec2: HitRecord| !hit_in(
                                    *self,
                                    *ray,
                                    t_min,
                                    l.t,
                                    rec2,
                                ) by {
                                    if hit_in(*self, *ray, t_min, l.t, rec2) {
                                        lemma_hit_rel_den(*self, *ray, rec2);
                                        if hit_rel(**right, *ray, rec2) {
                                            lemma_frac_lt_trans(
                                                rec2.t.num as int, rec2.t.den as int,
                                                l.t.num as int, l.t.den as int,
                                                t_max.num as int, t_max.den as int,
                                            );
                                            assert(hit_in(**right, *ray, t_min, t_max, rec2));
                                        } else {
                                            assert(hit_in(**left, *ray, t_min, l.t, rec2));
                                        }
                                    }
                                }
                            }
                            Option::Some(l)
                        },
                        (Option::None, Option::Some(r)) => {
                            proof {
                                assert forall|rec2: HitRecord| !hit_in(
                                    *self,
                                    *ray,
                                    t_min,
                                    r.t,
                                    rec2,
                                ) by {
                                    if hit_in(*self, *ray, t_min, r.t, rec2) {
                                        lemma_hit_rel_den(*self, *ray, rec2);
                                        if hit_rel(**left, *ray, rec2) {
                                            lemma_frac_lt_trans(
                                                rec2.t.num as int, rec2.t.den as int,
                                                r.t.num as int, r.t.den as int,
                                                t_max.num as int, t_max.den as int,
                                            );
                                            assert(hit_in(**left, *ray, t_min, t_max, rec2));
                                        } else {
                                            assert(hit_in(**right, *ray, t_min, r.t, rec2));
                                        }
                                    }
                                }
                            }
                            Option::Some(r)
                        },
                        (Option::None, Option::None) => {
                            proof {
                                assert forall|rec2: HitRecord| !hit_in(
                                    *self,
                                    *ray,
                                    t_min,
                                    t_max,
                                    rec2,
                                ) by {
                                    if hit_in(*self, *ray, t_min, t_max, rec2) {
                                        assert(hit_in(**left, *ray, t_min, t_max, rec2) || hit_in(
                                            **right,
                                            *ray,
                                            t_min,
                                            t_max,
                                            rec2,
                                        ));
                                    }
                                }
                            }
                            Option::None
                        },
                    }
                }
            },
        }
    }
}

/// Two trees with the same intersections answer any hit query alike: both
/// miss together; when both hit, the reported parameters are equal; and
/// when no two distinct records of the tree share that parameter — no tie —
/// the reported records are identical. Combined with
/// [`lemma_translate_compose`] or the hierarchy builder's contract, this
/// turns a hit-set identity into agreement of the queries themselves.
pub proof fn lemma_hit_post_agree(
    h1: Hitable,
    h2: Hitable,
    r: Ray,
    tmin: Rat,
    tmax: Rat,
    res1: Option<HitRecord>,
    res2: Option<HitRecord>,
)
    requires
        rat_wf(tmin),
        rat_wf(tmax),
        forall|rec: HitRecord| #[trigger] hit_rel(h1, r, rec) <==> hit_rel(h2, r, rec),
        hit_post(h1, r, tmin, tmax, res1),
        hit_post(h2, r, tmin, tmax, res2),
    ensures
        res1 is Some <==> res2 is Some,
        res1 matches Option::Some(a) ==> (res2 matches Option::Some(b) ==> rat_eq(a.t, b.t)),
        res1 matches Option::Some(a) ==> (res2 matches Option::Some(b) ==> ((forall|
            x: HitRecord,
            y: HitRecord,
        |
            #[trigger] hit_rel(h1, r, x) && #[trigger] hit_rel(h1, r, y) && rat_eq(x.t, y.t)
                ==> x == y) ==> a == b)),
{
    match (res1, res2) {
        (Option::Some(a), Option::Some(b)) => {
            lemma_hit_rel_den(h1, r, a);
            lemma_hit_rel_den(h2, r, b);
            assert(hit_rel(h2, r, a));
            assert(hit_rel(h1, r, b));
            assert(!hit_in(h2, r, tmin, b.t, a));
            assert(!hit_in(h1, r, tmin, a.t, b));
            assert(!rat_lt(a.t, b.t));
            assert(!rat_lt(b.t, a.t));
            lemma_frac_total(a.t.num as int, a.t.den as int, b.t.num as int, b.t.den as int);
            lemma_frac_total(b.t.num as int, b.t.den as int, a.t.num as int, a.t.den as int);
        },
        (Option::Some(a), Option::None) => {
            assert(hit_rel(h2, r, a));
            assert(hit_in(h2, r, tmin, tmax, a));
        },
        (Option::None, Option::Some(b)) => {
            assert(hit_rel(h1, r, b));
            assert(hit_in(h1, r, tmin, tmax, b));
        },
        (Option::None, Option::None) => {},
    }
}

/// Every material index in the tree lies below `n`.
pub open spec fn mats_below(h: Hitable, n: int) -> bool
    decreases h,
{
    match h {
        Hitable::XYRect { material, .. } => material < n,
        Hitable::XZRect { material, .. } => material < n,
        Hitable::YZRect { material, .. } => material < n,
        Hitable::FlipNormals { child } => mats_below(*child, n),
        Hitable::Translate { child, offset } => mats_below(*child, n),
        Hitable::HitableList { hitables } => forall|i: int|
            0 <= i < hitables.len() ==> mats_below(#[trigger] hitables[i], n),
        Hitable::BVHNode { left, right, bbox } => mats_below(*left, n) && mats_below(*right, n),
    }
}

/// A record reported against a tree whose material indices lie below `n`
/// carries an index below `n`: it can always address the material table.
pub proof fn lemma_hit_material_below(h: Hitable, r: Ray, rec: HitRecord, n: int)
    requires
        hit_rel(h, r, rec),
        mats_below(h, n),
    ensures
        rec.material < n,
    decreases h,
{
    match h {
        Hitable::XYRect { .. } => {},
        Hitable::XZRect { .. } => {},
        Hitable::YZRect { .. } => {},
        Hitable::FlipNormals { child } => {
            lemma_hit_material_below(*child, r, flip_rec(rec), n);
        },
        Hitable::Translate { child, offset } => {
            lemma_hit_material_below(*child, shift_ray(r, offset), rec, n);
        },
        Hitable::HitableList { hitables } => {
            let i = choose|i: int|
                0 <= i < hitables@.len() && hit_rel(#[trigger] hitables@[i], r, rec);
            lemma_hit_material_below(hitables@[i], r, rec, n);
        },
        Hitable::BVHNode { left, right, bbox } => {
            if hit_rel(*left, r, rec) {
                lemma_hit_material_below(*left, r, rec, n);
            } else {
                lemma_hit_material_below(*right, r, rec, n);
            }
        },
    }
}

/// Two stacked translations act as their composition: a tree translated by
/// `b` around a tree translated by `a` intersects every ray exactly as the
/// inner tree translated by `a + b` does, record for record. Through
/// [`lemma_hit_post_agree`] the two trees' hit queries then agree: same
/// miss, same parameter, and the identical record when no tie occurs.
pub proof fn lemma_translate_compose(nested: Hitable, fused: Hitable, r: Ray)
    requires
        nested matches Hitable::Translate { child: mid, offset: b } && (*mid
            matches Hitable::Translate { child: inner, offset: a } && (fused
            matches Hitable::Translate { child: inner2, offset: ab } && *inner2 == *inner && ab.x
            as int == a.x + b.x && ab.y as int == a.y + b.y && ab.z as int == a.z + b.z)),
        vec_in(r.origin, 0x1000_0000_0000_0000),
        nested matches Hitable::Translate { child: mid, offset: b } && vec_in(
            b,
            0x1000_0000_0000_0000,
        ) && (*mid matches Hitable::Translate { child: inner, offset: a } && vec_in(
            a,
            0x1000_0000_0000_0000,
        )),
    ensures
        forall|rec: HitRecord|
            #[trigger] hit_rel(nested, r, rec) <==> hit_rel(fused, r, rec),
{
    let b = nested->Translate_offset;
    let mid = nested->Translate_child;
    let a = (*mid)->Translate_offset;
    let inner = (*mid)->Translate_child;
    let ab = fused->Translate_offset;
    let inner2 = fused->Translate_child;
    assert(shift_ray(shift_ray(r, b), a) == shift_ray(r, ab));
    assert forall|rec: HitRecord|
        #[trigger] hit_rel(nested, r, rec) <==> hit_rel(fused, r, rec) by {
        assert(hit_rel(nested, r, rec) == hit_rel(*mid, shift_ray(r, b), rec));
        assert(hit_rel(*mid, shift_ray(r, b), rec) == hit_rel(
            *inner,
            shift_ray(shift_ray(r, b), a),
            rec,
        ));
        assert(hit_rel(fused, r, rec) == hit_rel(*inner2, shift_ray(r, ab), rec));
    }
}

/// The default direction that objects without a sampling strategy return.
pub open spec fn unit_x() -> Vector3 {
    Vector3 { x: 65536i64, y: 0i64, z: 0i64 }
}

/// `r` points from `origin` to the surface point `(px, k, pz)` of an
/// xz-rectangle.
pub open spec fn rect_point_dir(
    x0: int, x1: int, z0: int, z1: int, k: int,
    origin: Vector3, r: Vector3, px: int, pz: int,
) -> bool {
    &&& x0 <= px <= x1
    &&& z0 <= pz <= z1
    &&& r.x as int == px - origin.x
    &&& r.y as int == k - origin.y
    &&& r.z as int == pz - origin.z
}

/// What `random` may return: a direction from the origin toward a uniformly
/// chosen point of the object's surface, for the objects that sample one;
/// the fixed unit direction for the rest.
pub open spec fn random_ok(h: Hitable, origin: Vector3, r: Vector3) -> bool
    decreases h,
{
    match h {
        Hitable::XZRect { x0, x1, z0, z1, k, material } => exists|px: int, pz: int|
            #[trigger] rect_point_dir(
                x0 as int, x1 as int, z0 as int, z1 as int, k as int, origin, r, px, pz,
            ),
        Hitable::FlipNormals { child } => random_ok(*child, origin, r),
        Hitable::HitableList { hitables } => if hitables@.len() == 0 {
            r == unit_x()
        } else {
            exists|i: int| 0 <= i < hitables@.len() && random_ok(#[trigger] hitables@[i], origin, r)
        },
        _ => r == unit_x(),
    }
}

/// A uniformly chosen coordinate in the closed range.
fn sample_range(lo: i64, hi: i64) -> (r: i64)
    requires
        lo <= hi,
        -GEOM_LIMIT <= lo,
        hi <= GEOM_LIMIT,
    ensures
        lo <= r <= hi,
{
    let span = (hi - lo) as u64 + 1;
    let off = crate::random::random_u64() % span;
    lo + off as i64
}

impl Hitable {
    /// A direction from `origin` toward the object: rectangles that light
    /// scenes sample a uniform surface point, lists delegate to a uniformly
    /// chosen child, and everything else returns the fixed unit direction.
    pub fn random(&self, origin: &Vector3, m: Ghost<int>) -> (r: Vector3)
        requires
            hwf(*self, m@),
            vec_in(*origin, ORIGIN_LIMIT as int),
        ensures
            random_ok(*self, *origin, r),
        decreases *self,
    {
        match self {
            Hitable::XZRect { x0, x1, z0, z1, k, material } => {
                let sx = sample_range(*x0, *x1);
                let sz = sample_range(*z0, *z1);
                let r = Vector3::new(sx - origin.x, *k - origin.y, sz - origin.z);
                proof {
                    assert(random_ok(*self, *origin, r)) by {
                        assert(rect_point_dir(
                            *x0 as int, *x1 as int, *z0 as int, *z1 as int, *k as int,
                            *origin, r, sx as int, sz as int,
                        ));
                    }
                }
                r
            },
            Hitable::FlipNormals { child } => child.random(origin, m),
            Hitable::HitableList { hitables } => {
                let ghost list = *self;
                if hitables.len() == 0 {
                    Vector3::new(65536, 0, 0)
                } else {
                    let idx = (random_u32() as usize) % hitables.len();
                    proof {
                        assert(hwf(hitables@[idx as int], m@));
                        assert(decreases_to!(list => list->hitables));
                        assert(list->hitables == *hitables);
                        assert(decreases_to!(list => hitables@[idx as int]));
                    }
                    let r = hitables[idx].random(origin, m);
                    proof {
                        assert(random_ok(hitables@[idx as int], *origin, r));
                    }
                    r
                }
            },
            _ => Vector3::new(65536, 0, 0),
        }
    }
}

impl Hitable {
    /// Intersects a well-formed scene tree over the open interval
    /// `(t_min, t_max)`, returning the closest intersection.
    pub fn hit_within(&self, ray: &Ray, t_min: Rat, t_max: Rat) -> (res: Option<HitRecord>)
        requires
            hwf(*self, GEOM_LIMIT as int),
            vec_in(ray.origin, ORIGIN_LIMIT as int),
            vec_in(ray.direction, DIR_LIMIT as int),
            rat_wf(t_min),
            rat_wf(t_max),
        ensures
            hit_post(*self, *ray, t_min, t_max, res),
    {
        self.hit(ray, t_min, t_max, Ghost(GEOM_LIMIT as int))
    }

    /// A direction from `origin` toward the object, as [`Hitable::random`],
    /// for a well-formed scene tree.
    pub fn random_dir(&self, origin: &Vector3) -> (r: Vector3)
        requires
            hwf(*self, GEOM_LIMIT as int),
            vec_in(*origin, ORIGIN_LIMIT as int),
        ensures
            random_ok(*self, *origin, r),
    {
        self.random(origin, Ghost(GEOM_LIMIT as int))
    }
}

/// Intersects one axis-aligned rectangle. The plane axis has origin `ko` and
/// direction `kd`; the two in-plane axes have origins `ao`, `bo` and
/// directions `ad`, `bd`. `ghost_self` is the rectangle variant this stands
/// for, used only to state the contract.
#[verifier::spinoff_prover]
fn rect_hit(
    a0: i64, a1: i64, b0: i64, b1: i64, k: i64, material: usize,
    ao: i64, ad: i64, bo: i64, bd: i64, ko: i64, kd: i64,
    t_min: Rat, t_max: Rat,
    normal: Vector3,
    ghost_self: Ghost<Hitable>, ghost_ray: Ghost<Ray>, m: Ghost<int>,
) -> (res: Option<HitRecord>)
    requires
        rat_wf(t_min),
        rat_wf(t_max),
        0 <= m@ <= GEOM_LIMIT as int,
        -m@ <= a0 < a1 <= m@,
        -m@ <= b0 < b1 <= m@,
        -m@ <= k <= m@,
        -(ORIGIN_LIMIT as int + GEOM_LIMIT as int) <= ao <= ORIGIN_LIMIT as int + GEOM_LIMIT as int,
        -(ORIGIN_LIMIT as int + GEOM_LIMIT as int) <= bo <= ORIGIN_LIMIT as int + GEOM_LIMIT as int,
        -(ORIGIN_LIMIT as int + GEOM_LIMIT as int) <= ko <= ORIGIN_LIMIT as int + GEOM_LIMIT as int,
        -DIR_LIMIT <= ad <= DIR_LIMIT,
        -DIR_LIMIT <= bd <= DIR_LIMIT,
        -DIR_LIMIT <= kd <= DIR_LIMIT,
        vec_in(normal, 1),
        forall|rec: HitRecord|
            #[trigger] hit_rel(ghost_self@, ghost_ray@, rec) <==> (rect_rel(
                a0 as int, a1 as int, b0 as int, b1 as int, k as int,
                ao as int, ad as int, bo as int, bd as int, ko as int, kd as int,
                rec,
            ) && rec.normal == normal && rec.material == material),
    ensures
        hit_post(ghost_self@, ghost_ray@, t_min, t_max, res),
{
    if kd == 0 {
        return Option::None;
    }
    let (tn, td) = if kd > 0 {
        (k - ko, kd)
    } else {
        (ko - k, -kd)
    };
    let t = Rat::new(tn, td);
    proof {
        assert(tn as int == plane_t_num(k as int, ko as int, kd as int));
        assert(td as int == plane_t_den(kd as int));
    }
    if !(t_min.lt(&t) && t.lt(&t_max)) {
        proof {
            assert forall|rec2: HitRecord| !hit_in(ghost_self@, ghost_ray@, t_min, t_max, rec2) by {
                if hit_in(ghost_self@, ghost_ray@, t_min, t_max, rec2) {
                    assert(rec2.t.num == t.num && rec2.t.den == t.den);
                }
            }
        }
        return Option::None;
    }
    proof {
        lemma_mul_abs(ao as int, td as int, 0x1_8000_0000, DIR_LIMIT as int);
        lemma_mul_abs(bo as int, td as int, 0x1_8000_0000, DIR_LIMIT as int);
        lemma_mul_abs(tn as int, ad as int, 0x2_0000_0000, DIR_LIMIT as int);
        lemma_mul_abs(tn as int, bd as int, 0x2_0000_0000, DIR_LIMIT as int);
        lemma_mul_abs(a0 as int, td as int, GEOM_LIMIT as int, DIR_LIMIT as int);
        lemma_mul_abs(a1 as int, td as int, GEOM_LIMIT as int, DIR_LIMIT as int);
        lemma_mul_abs(b0 as int, td as int, GEOM_LIMIT as int, DIR_LIMIT as int);
        lemma_mul_abs(b1 as int, td as int, GEOM_LIMIT as int, DIR_LIMIT as int);
        lemma_mul_abs((a1 - a0) as int, td as int, 2 * GEOM_LIMIT as int, DIR_LIMIT as int);
        lemma_mul_abs((b1 - b0) as int, td as int, 2 * GEOM_LIMIT as int, DIR_LIMIT as int);
    }
    let xa = ao * td + tn * ad;
    let xb = bo * td + tn * bd;
    if xa < a0 * td || xa > a1 * td || xb < b0 * td || xb > b1 * td {
        proof {
            assert forall|rec2: HitRecord| !hit_in(ghost_self@, ghost_ray@, t_min, t_max, rec2) by {
                if hit_in(ghost_self@, ghost_ray@, t_min, t_max, rec2) {
                    assert(rec2.t.num == t.num && rec2.t.den == t.den);
                }
            }
        }
        return Option::None;
    }
    proof {
        assert((a1 - a0) as int * (td as int) > 0) by (nonlinear_arith)
            requires
                a0 < a1,
                0 < td,
        ;
        assert((b1 - b0) as int * (td as int) > 0) by (nonlinear_arith)
            requires
                b0 < b1,
                0 < td,
        ;
    }
    let u = Rat::new(xa - a0 * td, (a1 - a0) * td);
    let v = Rat::new(xb - b0 * td, (b1 - b0) * td);
    let rec = HitRecord { t, u, v, normal, material };
    proof {
        assert(hit_rel(ghost_self@, ghost_ray@, rec));
        assert forall|rec2: HitRecord| !hit_in(ghost_self@, ghost_ray@, t_min, rec.t, rec2) by {
            if hit_in(ghost_self@, ghost_ray@, t_min, rec.t, rec2) {
                assert(rec2.t.num == t.num && rec2.t.den == t.den);
            }
        }
    }
    Option::Some(rec)
}

/// Scans the children of a list, keeping the closest hit so far.
fn list_hit(
    hitables: &Vec<Hitable>,
    ray: &Ray,
    t_min: Rat,
    t_max: Rat,
    ghost_self: Ghost<Hitable>,
    m: Ghost<int>,
) -> (res: Option<HitRecord>)
    requires
        hwf(ghost_self@, m@),
        ray_ok(*ray, m@),
        rat_wf(t_min),
        rat_wf(t_max),
        ghost_self@ matches Hitable::HitableList { hitables: hs } && hs == *hitables,
    ensures
        hit_post(ghost_self@, *ray, t_min, t_max, res),
    decreases ghost_self@, 0nat,
{
    let ghost list = ghost_self@;
    let mut result: Option<HitRecord> = Option::None;
    let mut closest = t_max;
    let mut i: usize = 0;
    while i < hitables.len()
        invariant
            0 <= i <= hitables.len(),
            list == ghost_self@,
            hwf(list, m@),
            ray_ok(*ray, m@),
            rat_wf(t_min),
            rat_wf(t_max),
            rat_wf(closest),
            list matches Hitable::HitableList { hitables: hs } && hs == *hitables,
            match result {
                Option::None => {
                    &&& closest == t_max
                    &&& forall|j: int, rec2: HitRecord|
                        0 <= j < i ==> !(#[trigger] hit_in(hitables@[j], *ray, t_min, t_max, rec2))
                },
                Option::Some(rec) => {
                    &&& closest == rec.t
                    &&& hit_rel(list, *ray, rec)
                    &&& rat_lt(t_min, rec.t)
                    &&& rat_lt(rec.t, t_max)
                    &&& rec_bounds(rec)
                    &&& forall|j: int, rec2: HitRecord|
                        0 <= j < i ==> !(#[trigger] hit_in(hitables@[j], *ray, t_min, rec.t, rec2))
                },
            },
        decreases hitables.len() - i,
    {
        proof {
            assert(hwf(hitables@[i as int], m@));
            assert(decreases_to!(list => list->hitables));
            assert(list->hitables == *hitables);
            assert(decreases_to!(list => hitables@[i as int]));
        }
        let child_res = hitables[i].hit(ray, t_min, closest, m);
        proof {
            if child_res is Some {
                let rec = child_res->0;
                assert(hit_rel(list, *ray, rec)) by {
                    assert(hit_rel(hitables@[i as int], *ray, rec));
                }
            }
        }
        match child_res {
            Option::Some(rec) => {
                proof {
                    if result is Some {
                        let old_rec = result->0;
                        assert forall|j: int, rec2: HitRecord|
                            0 <= j < i + 1 implies !(#[trigger] hit_in(
                            hitables@[j],
                            *ray,
                            t_min,
                            rec.t,
                            rec2,
                        )) by {
                            if hit_in(hitables@[j], *ray, t_min, rec.t, rec2) {
                                lemma_hit_rel_den(hitables@[j], *ray, rec2);
                                if j < i {
                                    lemma_frac_lt_trans(
                                        rec2.t.num as int, rec2.t.den as int,
                                        rec.t.num as int, rec.t.den as int,
                                        old_rec.t.num as int, old_rec.t.den as int,
                                    );
                                    assert(hit_in(hitables@[j], *ray, t_min, old_rec.t, rec2));
                                } else {
                                    assert(hit_in(hitables@[i as int], *ray, t_min, rec.t, rec2));
                                }
                            }
                        }
                        lemma_frac_lt_trans(
                            rec.t.num as int, rec.t.den as int,
                            old_rec.t.num as int, old_rec.t.den as int,
                            t_max.num as int, t_max.den as int,
                        );
                    } else {
                        assert forall|j: int, rec2: HitRecord|
                            0 <= j < i + 1 implies !(#[trigger] hit_in(
                            hitables@[j],
                            *ray,
                            t_min,
                            rec.t,
                            rec2,
                        )) by {
                            if hit_in(hitables@[j], *ray, t_min, rec.t, rec2) {
                                lemma_hit_rel_den(hitables@[j], *ray, rec2);
                                if j < i {
                                    lemma_frac_lt_trans(
                                        rec2.t.num as int, rec2.t.den as int,
                                        rec.t.num as int, rec.t.den as int,
                                        t_max.num as int, t_max.den as int,
                                    );
                                    assert(hit_in(hitables@[j], *ray, t_min, t_max, rec2));
                                } else {
                                    assert(hit_in(hitables@[i as int], *ray, t_min, rec.t, rec2));
                                }
                            }
                        }
                    }
                }
                closest = rec.t;
                result = Option::Some(rec);
            },
            Option::None => {
                proof {
                    if result is Some {
                        let old_rec = result->0;
                        assert forall|j: int, rec2: HitRecord|
                            0 <= j < i + 1 implies !(#[trigger] hit_in(
                            hitables@[j],
                            *ray,
                            t_min,
                            old_rec.t,
                            rec2,
                        )) by {
                            if j == i && hit_in(hitables@[j], *ray, t_min, old_rec.t, rec2) {
                                assert(hit_in(hitables@[i as int], *ray, t_min, closest, rec2));
                            }
                        }
                    } else {
                        assert forall|j: int, rec2: HitRecord|
                            0 <= j < i + 1 implies !(#[trigger] hit_in(
                            hitables@[j],
                            *ray,
                            t_min,
                            t_max,
                            rec2,
                        )) by {
                            if j == i && hit_in(hitables@[j], *ray, t_min, t_max, rec2) {
                                assert(hit_in(hitables@[i as int], *ray, t_min, closest, rec2));
                            }
                        }
                    }
                }
            },
        }
        i = i + 1;
    }
    proof {
        match result {
            Option::None => {
                assert forall|rec2: HitRecord| !hit_in(list, *ray, t_min, t_max, rec2) by {
                    if hit_in(list, *ray, t_min, t_max, rec2) {
                        let j = choose|j: int|
                            0 <= j < hitables@.len() && hit_rel(#[trigger] hitables@[j], *ray, rec2);
                        assert(hit_in(hitables@[j], *ray, t_min, t_max, rec2));
                    }
                }
            },
            Option::Some(rec) => {
                assert forall|rec2: HitRecord| !hit_in(list, *ray, t_min, rec.t, rec2) by {
                    if hit_in(list, *ray, t_min, rec.t, rec2) {
                        let j = choose|j: int|
                            0 <= j < hitables@.len() && hit_rel(#[trigger] hitables@[j], *ray, rec2);
                        assert(hit_in(hitables@[j], *ray, t_min, rec.t, rec2));
                    }
                }
            },
        }
    }
    result
}

} // verus!
