//! Bounding boxes of geometry trees, and the bounding-volume hierarchy.
//!
//! `BVH::from_list` turns a list of objects into a binary tree of
//! bounding-volume nodes. Its contract states that the tree has exactly the
//! intersections of the flat list, and [`lemma_bvh_matches_list`] turns that
//! into the statement that a hit query against the tree and against the list
//! agree: the hierarchy is a pure accelerator.

use vstd::prelude::*;
use crate::math::{Rat, Ray, Vector3, rat_wf, rat_eq, vec_in};
use crate::aabb::{AABB, box_pierced_at, aabb_contains, lemma_contains_pierce, imin_spec,
    imax_spec};
use crate::hitable::{Hitable, HitRecord, hit_rel, hit_post, hwf, ray_ok, shift_ray,
    lemma_hit_post_agree, flip_rec, vabs_max, plane_t_num, plane_t_den, GEOM_LIMIT};
use crate::random::random_u32;

verus! {

/// The componentwise union of two boxes, at the specification level.
pub open spec fn aabb_surround(a: AABB, b: AABB) -> AABB {
    AABB {
        min: Vector3 {
            x: imin_spec(a.min.x as int, b.min.x as int) as i64,
            y: imin_spec(a.min.y as int, b.min.y as int) as i64,
            z: imin_spec(a.min.z as int, b.min.z as int) as i64,
        },
        max: Vector3 {
            x: imax_spec(a.max.x as int, b.max.x as int) as i64,
            y: imax_spec(a.max.y as int, b.max.y as int) as i64,
            z: imax_spec(a.max.z as int, b.max.z as int) as i64,
        },
    }
}

pub open spec fn opt_surround(a: Option<AABB>, b: Option<AABB>) -> Option<AABB> {
    match (a, b) {
        (Option::Some(x), Option::Some(y)) => Option::Some(aabb_surround(x, y)),
        _ => Option::None,
    }
}

/// The bounding box of a tree, if every part of it is bounded. A rectangle's
/// box is the rectangle thickened by one coordinate tick on every axis, so
/// that every intersection, boundary included, lies strictly inside it.
pub open spec fn sbbox(h: Hitable) -> Option<AABB>
    decreases h, 1nat,
{
    match h {
        Hitable::XYRect { x0, x1, y0, y1, k, material } => Option::Some(
            AABB {
                min: Vector3 { x: (x0 - 1) as i64, y: (y0 - 1) as i64, z: (k - 1) as i64 },
                max: Vector3 { x: (x1 + 1) as i64, y: (y1 + 1) as i64, z: (k + 1) as i64 },
            },
        ),
        Hitable::XZRect { x0, x1, z0, z1, k, material } => Option::Some(
            AABB {
                min: Vector3 { x: (x0 - 1) as i64, y: (k - 1) as i64, z: (z0 - 1) as i64 },
                max: Vector3 { x: (x1 + 1) as i64, y: (k + 1) as i64, z: (z1 + 1) as i64 },
            },
        ),
        Hitable::YZRect { y0, y1, z0, z1, k, material } => Option::Some(
            AABB {
                min: Vector3 { x: (k - 1) as i64, y: (y0 - 1) as i64, z: (z0 - 1) as i64 },
                max: Vector3 { x: (k + 1) as i64, y: (y1 + 1) as i64, z: (z1 + 1) as i64 },
            },
        ),
        Hitable::FlipNormals { child } => sbbox(*child),
        Hitable::Translate { child, offset } => match sbbox(*child) {
            Option::Some(bb) => Option::Some(
                AABB {
                    min: Vector3 {
                        x: (bb.min.x + offset.x) as i64,
                        y: (bb.min.y + offset.y) as i64,
                        z: (bb.min.z + offset.z) as i64,
                    },
                    max: Vector3 {
                        x: (bb.max.x + offset.x) as i64,
                        y: (bb.max.y + offset.y) as i64,
                        z: (bb.max.z + offset.z) as i64,
                    },
                },
            ),
            Option::None => Option::None,
        },
        Hitable::HitableList { hitables } => sbbox_seq(hitables@),
        Hitable::BVHNode { left, right, bbox } => Option::Some(bbox),
    }
}

/// The union of the boxes of a sequence of trees, `None` when the sequence
/// is empty or some member is unbounded.
pub open spec fn sbbox_seq(s: Seq<Hitable>) -> Option<AABB>
    decreases s, 2nat,
{
    if s.len() == 0 {
        Option::None
    } else if s.len() == 1 {
        sbbox(s[0])
    } else {
        opt_surround(sbbox_seq(s.drop_last()), sbbox(s.last()))
    }
}

/// The tree has a bounding box.
pub open spec fn has_bbox(h: Hitable) -> bool {
    sbbox(h) is Some
}

/// Some member of the sequence intersects the ray with this record.
pub open spec fn in_some(s: Seq<Hitable>, r: Ray, rec: HitRecord) -> bool {
    exists|i: int| 0 <= i < s.len() && hit_rel(#[trigger] s[i], r, rec)
}

/// None of the sequence's members is itself a hierarchy node.
pub open spec fn no_nodes(s: Seq<Hitable>) -> bool {
    forall|i: int| 0 <= i < s.len() ==> !((#[trigger] s[i]) is BVHNode)
}

/// The objects at the hierarchy's leaves, left to right: a node contributes
/// its children's leaves, and anything else is itself a leaf.
pub open spec fn bvh_leaves(h: Hitable) -> Seq<Hitable>
    decreases h,
{
    match h {
        Hitable::BVHNode { left, right, bbox } => bvh_leaves(*left) + bvh_leaves(*right),
        _ => seq![h],
    }
}

/// An element of a sequence is an element of any sequence with the same
/// members.
proof fn lemma_multiset_mem(s1: Seq<Hitable>, s2: Seq<Hitable>, x: Hitable)
    requires
        s1.to_multiset() == s2.to_multiset(),
        s1.contains(x),
    ensures
        s2.contains(x),
{
    s1.to_multiset_ensures();
    s2.to_multiset_ensures();
    assert(s1.to_multiset().count(x) > 0);
    assert(s2.to_multiset().count(x) > 0);
}

/// Reordering a sequence keeps it free of hierarchy nodes.
proof fn lemma_no_nodes_transfer(s1: Seq<Hitable>, s2: Seq<Hitable>)
    requires
        s1.to_multiset() == s2.to_multiset(),
        no_nodes(s1),
    ensures
        no_nodes(s2),
{
    assert forall|i: int| 0 <= i < s2.len() implies !((#[trigger] s2[i]) is BVHNode) by {
        assert(s2.contains(s2[i]));
        lemma_multiset_mem(s2, s1, s2[i]);
        let j = choose|j: int| 0 <= j < s1.len() && s1[j] == s2[i];
        assert(!(s1[j] is BVHNode));
    }
}

/// Every tree of the sequence is well formed, bounded, and has a box.
pub open spec fn list_wf(s: Seq<Hitable>, m: int) -> bool {
    &&& 0 <= m <= GEOM_LIMIT as int
    &&& forall|i: int| 0 <= i < s.len() ==> hwf(#[trigger] s[i], m)
    &&& forall|i: int| 0 <= i < s.len() ==> has_bbox(#[trigger] s[i])
}

/// Being strictly inside a slab puts a point strictly inside the slab
/// widened by one tick.
proof fn lemma_widen_axis(a0: int, a1: int, v: int, td: int)
    by (nonlinear_arith)
    requires
        0 < td,
        a0 * td <= v <= a1 * td,
    ensures
        (a0 - 1) * td < v < (a1 + 1) * td,
{
}

/// The crossing parameter of the constant-coordinate plane really places the
/// ray on that plane.
proof fn lemma_plane_pierce(k: int, ko: int, kd: int, tn: int, td: int)
    by (nonlinear_arith)
    requires
        kd != 0,
        tn == plane_t_num(k, ko, kd),
        td == plane_t_den(kd),
    ensures
        0 < td,
        (k - 1) * td < ko * td + tn * kd < (k + 1) * td,
{
}

/// Shifting a slab and the ray origin together preserves strict insideness.
proof fn lemma_shift_axis(lo: int, hi: int, o: int, off: int, d: int, tn: int, td: int)
    by (nonlinear_arith)
    requires
        0 < td,
        lo * td < (o - off) * td + tn * d,
        (o - off) * td + tn * d < hi * td,
    ensures
        (lo + off) * td < o * td + tn * d,
        o * td + tn * d < (hi + off) * td,
{
}

/// A well-formed bounded tree has its box within the budget, widened by one
/// tick, with the corners ordered.
pub proof fn lemma_sbbox_bounds(h: Hitable, m: int)
    requires
        hwf(h, m),
        has_bbox(h),
    ensures
        vec_in(sbbox(h)->0.min, m + 1),
        vec_in(sbbox(h)->0.max, m + 1),
    decreases h, 1nat,
{
    match h {
        Hitable::XYRect { .. } => {},
        Hitable::XZRect { .. } => {},
        Hitable::YZRect { .. } => {},
        Hitable::FlipNormals { child } => {
            lemma_sbbox_bounds(*child, m);
        },
        Hitable::Translate { child, offset } => {
            lemma_sbbox_bounds(*child, m - vabs_max(offset));
        },
        Hitable::HitableList { hitables } => {
            lemma_sbbox_seq_bounds(hitables@, m);
        },
        Hitable::BVHNode { .. } => {},
    }
}

proof fn lemma_sbbox_seq_bounds(s: Seq<Hitable>, m: int)
    requires
        0 <= m,
        forall|i: int| 0 <= i < s.len() ==> hwf(#[trigger] s[i], m),
        sbbox_seq(s) is Some,
    ensures
        vec_in(sbbox_seq(s)->0.min, m + 1),
        vec_in(sbbox_seq(s)->0.max, m + 1),
    decreases s, 2nat,
{
    if s.len() == 1 {
        lemma_sbbox_bounds(s[0], m);
    } else {
        assert(forall|i: int|
            0 <= i < s.drop_last().len() ==> hwf(#[trigger] s.drop_last()[i], m));
        lemma_sbbox_seq_bounds(s.drop_last(), m);
        lemma_sbbox_bounds(s.last(), m);
    }
}

/// The union box of a sequence contains the box of each member.
proof fn lemma_sbbox_seq_contains(s: Seq<Hitable>, i: int)
    requires
        sbbox_seq(s) is Some,
        0 <= i < s.len(),
    ensures
        sbbox(s[i]) is Some,
        aabb_contains(sbbox_seq(s)->0, sbbox(s[i])->0),
    decreases s,
{
    if s.len() == 1 {
    } else {
        if i < s.len() - 1 {
            lemma_sbbox_seq_contains(s.drop_last(), i);
        }
    }
}

/// Every intersection of a well-formed bounded tree pierces its bounding box
/// strictly.
pub proof fn lemma_sbbox_pierce(h: Hitable, m: int, r: Ray, rec: HitRecord)
    requires
        hwf(h, m),
        ray_ok(r, m),
        has_bbox(h),
        hit_rel(h, r, rec),
    ensures
        box_pierced_at(sbbox(h)->0, r, rec.t.num as int, rec.t.den as int),
    decreases h,
{
    let bb = sbbox(h)->0;
    let tn = rec.t.num as int;
    let td = rec.t.den as int;
    match h {
        Hitable::XYRect { x0, x1, y0, y1, k, material } => {
            lemma_plane_pierce(
                k as int, r.origin.z as int, r.direction.z as int, tn, td,
            );
            lemma_widen_axis(
                x0 as int, x1 as int,
                (r.origin.x as int) * td + tn * (r.direction.x as int), td,
            );
            lemma_widen_axis(
                y0 as int, y1 as int,
                (r.origin.y as int) * td + tn * (r.direction.y as int), td,
            );
        },
        Hitable::XZRect { x0, x1, z0, z1, k, material } => {
            lemma_plane_pierce(
                k as int, r.origin.y as int, r.direction.y as int, tn, td,
            );
            lemma_widen_axis(
                x0 as int, x1 as int,
                (r.origin.x as int) * td + tn * (r.direction.x as int), td,
            );
            lemma_widen_axis(
                z0 as int, z1 as int,
                (r.origin.z as int) * td + tn * (r.direction.z as int), td,
            );
        },
        Hitable::YZRect { y0, y1, z0, z1, k, material } => {
            lemma_plane_pierce(
                k as int, r.origin.x as int, r.direction.x as int, tn, td,
            );
            lemma_widen_axis(
                y0 as int, y1 as int,
                (r.origin.y as int) * td + tn * (r.direction.y as int), td,
            );
            lemma_widen_axis(
                z0 as int, z1 as int,
                (r.origin.z as int) * td + tn * (r.direction.z as int), td,
            );
        },
        Hitable::FlipNormals { child } => {
            lemma_sbbox_pierce(*child, m, r, flip_rec(rec));
        },
        Hitable::Translate { child, offset } => {
            let m2 = m - vabs_max(offset);
            let r2 = shift_ray(r, offset);
            lemma_sbbox_pierce(*child, m2, r2, rec);
            lemma_sbbox_bounds(*child, m2);
            let cb = sbbox(*child)->0;
            lemma_shift_axis(
                cb.min.x as int, cb.max.x as int, r.origin.x as int, offset.x as int,
                r.direction.x as int, tn, td,
            );
            lemma_shift_axis(
                cb.min.y as int, cb.max.y as int, r.origin.y as int, offset.y as int,
                r.direction.y as int, tn, td,
            );
            lemma_shift_axis(
                cb.min.z as int, cb.max.z as int, r.origin.z as int, offset.z as int,
                r.direction.z as int, tn, td,
            );
        },
        Hitable::HitableList { hitables } => {
            let i = choose|i: int|
                0 <= i < hitables@.len() && hit_rel(#[trigger] hitables@[i], r, rec);
            lemma_sbbox_seq_contains(hitables@, i);
            lemma_sbbox_pierce(hitables@[i], m, r, rec);
            lemma_contains_pierce(bb, sbbox(hitables@[i])->0, r, tn, td);
        },
        Hitable::BVHNode { left, right, bbox } => {
            if hit_rel(*left, r, rec) {
                assert(box_pierced_at(bbox, r, tn, td));
            } else {
                assert(hit_rel(*right, r, rec));
                assert(box_pierced_at(bbox, r, tn, td));
            }
        },
    }
}

/// The componentwise union of two boxes.
fn surround_opt(a: Option<AABB>, b: Option<AABB>) -> (res: Option<AABB>)
    ensures
        res == opt_surround(a, b),
{
    match (a, b) {
        (Option::Some(x), Option::Some(y)) => Option::Some(AABB::surrounding_box(x, y)),
        _ => Option::None,
    }
}

impl Hitable {
    /// The bounding box of the tree, when every part of it is bounded.
    pub fn bounding_box(&self, m: Ghost<int>) -> (res: Option<AABB>)
        requires
            hwf(*self, m@),
        ensures
            res == sbbox(*self),
        decreases *self, 1nat,
    {
        match self {
            Hitable::XYRect { x0, x1, y0, y1, k, material } => Option::Some(
                AABB::new(
                    Vector3::new(*x0 - 1, *y0 - 1, *k - 1),
                    Vector3::new(*x1 + 1, *y1 + 1, *k + 1),
                ),
            ),
            Hitable::XZRect { x0, x1, z0, z1, k, material } => Option::Some(
                AABB::new(
                    Vector3::new(*x0 - 1, *k - 1, *z0 - 1),
                    Vector3::new(*x1 + 1, *k + 1, *z1 + 1),
                ),
            ),
            Hitable::YZRect { y0, y1, z0, z1, k, material } => Option::Some(
                AABB::new(
                    Vector3::new(*k - 1, *y0 - 1, *z0 - 1),
                    Vector3::new(*k + 1, *y1 + 1, *z1 + 1),
                ),
            ),
            Hitable::FlipNormals { child } => child.bounding_box(m),
            Hitable::Translate { child, offset } => {
                let res = child.bounding_box(Ghost(m@ - vabs_max(*offset)));
                match res {
                    Option::Some(bb) => {
                        proof {
                            lemma_sbbox_bounds(**child, m@ - vabs_max(*offset));
                        }
                        Option::Some(
                            AABB::new(
                                Vector3::new(
                                    bb.min.x + offset.x,
                                    bb.min.y + offset.y,
                                    bb.min.z + offset.z,
                                ),
                                Vector3::new(
                                    bb.max.x + offset.x,
                                    bb.max.y + offset.y,
                                    bb.max.z + offset.z,
                                ),
                            ),
                        )
                    },
                    Option::None => Option::None,
                }
            },
            Hitable::HitableList { hitables } => {
                let ghost list = *self;
                if hitables.len() == 0 {
                    proof {
                        assert(sbbox(*self) == sbbox_seq(hitables@));
                        assert(sbbox_seq(hitables@) is None);
                    }
                    return Option::None;
                }
                proof {
                    assert(decreases_to!(list => list->hitables));
                    assert(list->hitables == *hitables);
                    assert(decreases_to!(list => hitables@[0]));
                    assert(hitables@.take(1) =~= seq![hitables@[0]]);
                }
                let mut acc = hitables[0].bounding_box(m);
                let mut i: usize = 1;
                while i < hitables.len()
                    invariant
                        1 <= i <= hitables.len(),
                        list == *self,
                        list matches Hitable::HitableList { hitables: hs } && hs == *hitables,
                        hwf(list, m@),
                        acc == sbbox_seq(hitables@.take(i as int)),
                    decreases hitables.len() - i,
                {
                    proof {
                        assert(hwf(hitables@[i as int], m@));
                        assert(decreases_to!(list => list->hitables));
                        assert(list->hitables == *hitables);
                        assert(decreases_to!(list => hitables@[i as int]));
                    }
                    let child_bb = hitables[i].bounding_box(m);
                    acc = surround_opt(acc, child_bb);
                    proof {
                        let pre = hitables@.take(i as int);
                        let post = hitables@.take(i as int + 1);
                        assert(post.drop_last() =~= pre);
                        assert(post.last() == hitables@[i as int]);
                        assert(post.len() >= 2);
                    }
                    i = i + 1;
                }
                proof {
                    assert(hitables@.take(hitables@.len() as int) =~= hitables@);
                }
                acc
            },
            Hitable::BVHNode { left, right, bbox } => Option::Some(*bbox),
        }
    }
}

impl Hitable {
    /// The bounding box of a well-formed scene tree.
    pub fn scene_bounding_box(&self) -> (res: Option<AABB>)
        requires
            hwf(*self, GEOM_LIMIT as int),
        ensures
            res == sbbox(*self),
    {
        self.bounding_box(Ghost(GEOM_LIMIT as int))
    }
}

/// Picks one of the three axes at random, as the hierarchy builder does.
pub fn random_axis() -> (r: u32)
    ensures
        r < 3,
{
    random_u32() % 3
}

/// The sort key of the hierarchy builder: the box's smallest coordinate
/// along the chosen axis.
pub open spec fn key_spec(h: Hitable, axis: u32) -> int {
    match sbbox(h) {
        Option::Some(bb) => if axis == 0 {
            bb.min.x as int
        } else if axis == 1 {
            bb.min.y as int
        } else {
            bb.min.z as int
        },
        Option::None => 0,
    }
}

/// The sequence is ordered by the sort key along `axis`.
pub open spec fn sorted_by_key(s: Seq<Hitable>, axis: u32) -> bool {
    forall|a: int, b: int| 0 <= a <= b < s.len() ==> key_spec(#[trigger] s[a], axis) <= key_spec(#[trigger] s[b], axis)
}

fn key_of(h: &Hitable, axis: u32, m: Ghost<int>) -> (r: i64)
    requires
        hwf(*h, m@),
        has_bbox(*h),
    ensures
        r as int == key_spec(*h, axis),
{
    match h.bounding_box(m) {
        Option::Some(bb) => {
            if axis == 0 {
                bb.min.x
            } else if axis == 1 {
                bb.min.y
            } else {
                bb.min.z
            }
        },
        Option::None => {
            proof {
                assert(false);
            }
            0
        },
    }
}

/// Sequences with the same elements intersect a ray in the same records.
proof fn lemma_multiset_in_some(s1: Seq<Hitable>, s2: Seq<Hitable>)
    requires
        s1.to_multiset() =~= s2.to_multiset(),
    ensures
        forall|ray: Ray, rec: HitRecord|
            #[trigger] in_some(s1, ray, rec) ==> in_some(s2, ray, rec),
{
    assert forall|ray: Ray, rec: HitRecord|
        #[trigger] in_some(s1, ray, rec) implies in_some(s2, ray, rec) by {
        let i = choose|i: int| 0 <= i < s1.len() && hit_rel(#[trigger] s1[i], ray, rec);
        let x = s1[i];
        s1.to_multiset_ensures();
        s2.to_multiset_ensures();
        assert(s1.contains(x));
        assert(s2.to_multiset().count(x) > 0);
        assert(s2.contains(x));
        let j = choose|j: int| 0 <= j < s2.len() && s2[j] == x;
        assert(hit_rel(s2[j], ray, rec));
    }
}

/// Sorts the list by the box coordinate along the given axis, by repeatedly
/// moving the smallest remaining element to the output.
fn sort_by_key(list: Vec<Hitable>, axis: u32, m: Ghost<int>) -> (res: Vec<Hitable>)
    requires
        axis < 3,
        list_wf(list@, m@),
    ensures
        res@.len() == list@.len(),
        res@.to_multiset() =~= list@.to_multiset(),
        list_wf(res@, m@),
        sorted_by_key(res@, axis),
{
    let mut rest = list;
    let mut out: Vec<Hitable> = Vec::new();
    proof {
        broadcast use vstd::multiset::group_multiset_axioms;

        assert forall|x: Hitable| out@.to_multiset().count(x) == 0 by {
            out@.to_multiset_ensures();
            assert(!out@.contains(x));
        }
        assert(out@.to_multiset().add(rest@.to_multiset()) =~= list@.to_multiset());
    }
    while rest.len() > 0
        invariant
            axis < 3,
            list_wf(rest@, m@),
            list_wf(out@, m@),
            out@.to_multiset().add(rest@.to_multiset()) =~= list@.to_multiset(),
            out@.len() + rest@.len() == list@.len(),
            sorted_by_key(out@, axis),
            forall|a: int, b: int|
                0 <= a < out@.len() && 0 <= b < rest@.len() ==> key_spec(
                    #[trigger] out@[a],
                    axis,
                ) <= key_spec(#[trigger] rest@[b], axis),
        decreases rest.len(),
    {
        proof {
            broadcast use vstd::multiset::group_multiset_axioms;
        }
        let mut best: usize = 0;
        let mut best_key = key_of(&rest[0], axis, m);
        let mut j: usize = 1;
        while j < rest.len()
            invariant
                axis < 3,
                list_wf(rest@, m@),
                rest@.len() > 0,
                0 <= best < j <= rest@.len(),
                best_key as int == key_spec(rest@[best as int], axis),
                forall|a: int| 0 <= a < j ==> best_key as int <= key_spec(#[trigger] rest@[a], axis),
            decreases rest@.len() - j,
        {
            let cand = key_of(&rest[j], axis, m);
            if cand < best_key {
                best = j;
                best_key = cand;
            }
            j = j + 1;
        }
        let ghost old_rest = rest@;
        let ghost old_out = out@;
        let x = rest.remove(best);
        out.push(x);
        proof {
            old_rest.to_multiset_ensures();
            old_out.to_multiset_ensures();
            old_rest.remove_ensures(best as int);
            assert(out@.to_multiset() =~= old_out.to_multiset().insert(x));
            assert(rest@.to_multiset() =~= old_rest.to_multiset().remove(x));
            assert(old_rest.contains(x));
            assert(old_rest.to_multiset().count(x) > 0);
            assert(out@.to_multiset().add(rest@.to_multiset()) =~= list@.to_multiset());
            assert forall|i: int| 0 <= i < rest@.len() implies hwf(#[trigger] rest@[i], m@)
                && has_bbox(rest@[i]) by {
                if i < best {
                    assert(rest@[i] == old_rest[i]);
                } else {
                    assert(rest@[i] == old_rest[i + 1]);
                }
            }
            assert forall|i: int| 0 <= i < out@.len() implies hwf(#[trigger] out@[i], m@)
                && has_bbox(out@[i]) by {
                if i < old_out.len() {
                    assert(out@[i] == old_out[i]);
                } else {
                    assert(out@[i] == x);
                    assert(old_rest[best as int] == x);
                }
            }
            assert forall|a: int, b: int|
                0 <= a < out@.len() && 0 <= b < rest@.len() implies key_spec(
                #[trigger] out@[a],
                axis,
            ) <= key_spec(#[trigger] rest@[b], axis) by {
                let rb = rest@[b];
                if b < best {
                    assert(rb == old_rest[b]);
                } else {
                    assert(rb == old_rest[b + 1]);
                }
                if a < old_out.len() {
                    assert(out@[a] == old_out[a]);
                } else {
                    assert(out@[a] == x);
                }
            }
            assert forall|a: int, b: int|
                0 <= a <= b < out@.len() implies key_spec(#[trigger] out@[a], axis) <= key_spec(
                #[trigger] out@[b],
                axis,
            ) by {
                if b < old_out.len() {
                    assert(out@[a] == old_out[a] && out@[b] == old_out[b]);
                } else if a < old_out.len() {
                    assert(out@[a] == old_out[a] && out@[b] == x);
                    assert(old_rest[best as int] == x);
                } else {
                    assert(out@[a] == x && out@[b] == x);
                }
            }
        }
    }
    proof {
        broadcast use vstd::multiset::group_multiset_axioms;

        assert forall|x: Hitable| rest@.to_multiset().count(x) == 0 by {
            rest@.to_multiset_ensures();
            assert(!rest@.contains(x));
        }
        assert(out@.to_multiset() =~= list@.to_multiset());
    }
    out
}

/// Splitting a sequence splits its intersections.
proof fn lemma_in_some_concat(s: Seq<Hitable>, at: int)
    requires
        0 <= at <= s.len(),
    ensures
        forall|ray: Ray, rec: HitRecord|
            #[trigger] in_some(s, ray, rec) <==> (in_some(s.subrange(0, at), ray, rec) || in_some(
                s.subrange(at, s.len() as int),
                ray,
                rec,
            )),
{
    let left = s.subrange(0, at);
    let right = s.subrange(at, s.len() as int);
    assert forall|ray: Ray, rec: HitRecord|
        #[trigger] in_some(s, ray, rec) <==> (in_some(left, ray, rec) || in_some(
            right,
            ray,
            rec,
        )) by {
        if in_some(s, ray, rec) {
            let i = choose|i: int| 0 <= i < s.len() && hit_rel(#[trigger] s[i], ray, rec);
            if i < at {
                assert(hit_rel(left[i], ray, rec));
            } else {
                assert(hit_rel(right[i - at], ray, rec));
            }
        }
        if in_some(left, ray, rec) {
            let i = choose|i: int| 0 <= i < left.len() && hit_rel(#[trigger] left[i], ray, rec);
            assert(hit_rel(s[i], ray, rec));
        }
        if in_some(right, ray, rec) {
            let i = choose|i: int| 0 <= i < right.len() && hit_rel(#[trigger] right[i], ray, rec);
            assert(hit_rel(s[i + at], ray, rec));
        }
    }
}

/// Joins two trees under a bounding-volume node whose box is the union of
/// their boxes.
fn make_node(left: Hitable, right: Hitable, m: Ghost<int>) -> (res: Hitable)
    requires
        hwf(left, m@),
        hwf(right, m@),
        has_bbox(left),
        has_bbox(right),
    ensures
        hwf(res, m@),
        has_bbox(res),
        aabb_contains(sbbox(res)->0, sbbox(left)->0),
        aabb_contains(sbbox(res)->0, sbbox(right)->0),
        bvh_leaves(res) == bvh_leaves(left) + bvh_leaves(right),
        forall|ray: Ray, rec: HitRecord|
            #[trigger] hit_rel(res, ray, rec) <==> (hit_rel(left, ray, rec) || hit_rel(
                right,
                ray,
                rec,
            )),
{
    let bl = match left.bounding_box(m) {
        Option::Some(bb) => bb,
        Option::None => {
            proof {
                assert(false);
            }
            AABB::new(Vector3::zero(), Vector3::zero())
        },
    };
    let br = match right.bounding_box(m) {
        Option::Some(bb) => bb,
        Option::None => {
            proof {
                assert(false);
            }
            AABB::new(Vector3::zero(), Vector3::zero())
        },
    };
    let bbox = AABB::surrounding_box(bl, br);
    proof {
        lemma_sbbox_bounds(left, m@);
        lemma_sbbox_bounds(right, m@);
        assert forall|ray: Ray, rec: HitRecord|
            ray_ok(ray, m@) && #[trigger] hit_rel(left, ray, rec) implies box_pierced_at(
            bbox,
            ray,
            rec.t.num as int,
            rec.t.den as int,
        ) by {
            lemma_sbbox_pierce(left, m@, ray, rec);
            lemma_contains_pierce(bbox, bl, ray, rec.t.num as int, rec.t.den as int);
        }
        assert forall|ray: Ray, rec: HitRecord|
            ray_ok(ray, m@) && #[trigger] hit_rel(right, ray, rec) implies box_pierced_at(
            bbox,
            ray,
            rec.t.num as int,
            rec.t.den as int,
        ) by {
            lemma_sbbox_pierce(right, m@, ray, rec);
            lemma_contains_pierce(bbox, br, ray, rec.t.num as int, rec.t.den as int);
        }
    }
    let node = Hitable::BVHNode { left: Box::new(left), right: Box::new(right), bbox };
    node
}

/// The bounding-volume hierarchy.
pub struct BVH {
}

impl BVH {
    /// Builds a hierarchy over the given objects: sorts them by a random
    /// axis, splits in half and recurses. The tree intersects a ray exactly
    /// where the flat list does; its leaves are exactly the given objects,
    /// none lost and none duplicated; and its box contains every object's
    /// box.
    pub fn from_list(hitables: Vec<Hitable>) -> (res: Hitable)
        requires
            hitables@.len() > 0,
            list_wf(hitables@, GEOM_LIMIT as int),
            no_nodes(hitables@),
        ensures
            hwf(res, GEOM_LIMIT as int),
            has_bbox(res),
            bvh_leaves(res).to_multiset() == hitables@.to_multiset(),
            forall|i: int|
                0 <= i < hitables@.len() ==> aabb_contains(
                    sbbox(res)->0,
                    sbbox(#[trigger] hitables@[i])->0,
                ),
            forall|ray: Ray, rec: HitRecord|
                #[trigger] hit_rel(res, ray, rec) <==> in_some(hitables@, ray, rec),
    {
        BVH::build_tree(hitables, Ghost(GEOM_LIMIT as int))
    }

    /// One level of the recursive build, within the coordinate budget `m`.
    fn build_tree(hitables: Vec<Hitable>, m: Ghost<int>) -> (res: Hitable)
        requires
            hitables@.len() > 0,
            list_wf(hitables@, m@),
            no_nodes(hitables@),
        ensures
            hwf(res, m@),
            has_bbox(res),
            bvh_leaves(res).to_multiset() == hitables@.to_multiset(),
            forall|i: int|
                0 <= i < hitables@.len() ==> aabb_contains(
                    sbbox(res)->0,
                    sbbox(#[trigger] hitables@[i])->0,
                ),
            forall|ray: Ray, rec: HitRecord|
                #[trigger] hit_rel(res, ray, rec) <==> in_some(hitables@, ray, rec),
        decreases hitables@.len(),
    {
        let ghost orig = hitables@;
        let axis = random_axis();
        let mut sorted = sort_by_key(hitables, axis, m);
        proof {
            lemma_multiset_in_some(orig, sorted@);
            lemma_multiset_in_some(sorted@, orig);
            lemma_no_nodes_transfer(orig, sorted@);
        }
        let ghost sorted_view = sorted@;
        if sorted.len() == 1 {
            let h = sorted.remove(0);
            proof {
                assert(h == sorted_view[0]);
                assert(bvh_leaves(h) =~= seq![h]);
                assert(seq![h] =~= sorted_view);
                assert(bvh_leaves(h).to_multiset() == orig.to_multiset());
                assert forall|i: int|
                    0 <= i < orig.len() implies aabb_contains(
                    sbbox(h)->0,
                    sbbox(#[trigger] orig[i])->0,
                ) by {
                    assert(orig.contains(orig[i]));
                    lemma_multiset_mem(orig, sorted_view, orig[i]);
                    let j = choose|j: int| 0 <= j < sorted_view.len() && sorted_view[j] == orig[i];
                    assert(j == 0);
                }
                assert forall|ray: Ray, rec: HitRecord|
                    #[trigger] hit_rel(h, ray, rec) <==> in_some(orig, ray, rec) by {
                    if hit_rel(h, ray, rec) {
                        assert(hit_rel(sorted_view[0], ray, rec));
                        assert(in_some(sorted_view, ray, rec));
                        assert(in_some(orig, ray, rec));
                    }
                    if in_some(orig, ray, rec) {
                        assert(in_some(sorted_view, ray, rec));
                        let i = choose|i: int|
                            0 <= i < sorted_view.len() && hit_rel(
                                #[trigger] sorted_view[i],
                                ray,
                                rec,
                            );
                        assert(i == 0);
                    }
                }
            }
            h
        } else if sorted.len() == 2 {
            let left = sorted.remove(0);
            let right = sorted.remove(0);
            proof {
                sorted_view.remove_ensures(0);
                assert(left == sorted_view[0]);
                assert(right == sorted_view[1]);
            }
            let node = make_node(left, right, m);
            proof {
                assert(bvh_leaves(left) =~= seq![left]);
                assert(bvh_leaves(right) =~= seq![right]);
                assert(bvh_leaves(node) =~= seq![left] + seq![right]);
                assert(seq![left] + seq![right] =~= sorted_view);
                assert(bvh_leaves(node).to_multiset() == orig.to_multiset());
                assert forall|i: int|
                    0 <= i < orig.len() implies aabb_contains(
                    sbbox(node)->0,
                    sbbox(#[trigger] orig[i])->0,
                ) by {
                    assert(orig.contains(orig[i]));
                    lemma_multiset_mem(orig, sorted_view, orig[i]);
                    let j = choose|j: int| 0 <= j < sorted_view.len() && sorted_view[j] == orig[i];
                    assert(j == 0 || j == 1);
                }
                assert forall|ray: Ray, rec: HitRecord|
                    #[trigger] hit_rel(node, ray, rec) <==> in_some(orig, ray, rec) by {
                    if hit_rel(node, ray, rec) {
                        if hit_rel(left, ray, rec) {
                            assert(hit_rel(sorted_view[0], ray, rec));
                        } else {
                            assert(hit_rel(sorted_view[1], ray, rec));
                        }
                        assert(in_some(sorted_view, ray, rec));
                        assert(in_some(orig, ray, rec));
                    }
                    if in_some(orig, ray, rec) {
                        assert(in_some(sorted_view, ray, rec));
                        let i = choose|i: int|
                            0 <= i < sorted_view.len() && hit_rel(
                                #[trigger] sorted_view[i],
                                ray,
                                rec,
                            );
                        assert(i == 0 || i == 1);
                        assert(hit_rel(node, ray, rec));
                    }
                }
            }
            node
        } else {
            let n = sorted.len();
            let right_vec = sorted.split_off(n / 2);
            proof {
                lemma_in_some_concat(sorted_view, (n / 2) as int);
                assert forall|i: int| 0 <= i < sorted@.len() implies hwf(#[trigger] sorted@[i], m@)
                    && has_bbox(sorted@[i]) by {
                    assert(sorted@[i] == sorted_view[i]);
                }
                assert forall|i: int|
                    0 <= i < right_vec@.len() implies hwf(#[trigger] right_vec@[i], m@)
                    && has_bbox(right_vec@[i]) by {
                    assert(right_vec@[i] == sorted_view[i + (n / 2) as int]);
                }
                assert forall|i: int|
                    0 <= i < sorted@.len() implies !((#[trigger] sorted@[i]) is BVHNode) by {
                    assert(sorted@[i] == sorted_view[i]);
                }
                assert forall|i: int|
                    0 <= i < right_vec@.len() implies !(
                    (#[trigger] right_vec@[i]) is BVHNode) by {
                    assert(right_vec@[i] == sorted_view[i + (n / 2) as int]);
                }
            }
            let ghost left_view = sorted@;
            let ghost right_view = right_vec@;
            let left = BVH::build_tree(sorted, m);
            let right = BVH::build_tree(right_vec, m);
            let node = make_node(left, right, m);
            proof {
                vstd::seq_lib::lemma_multiset_commutative(bvh_leaves(left), bvh_leaves(right));
                vstd::seq_lib::lemma_multiset_commutative(left_view, right_view);
                assert(left_view + right_view =~= sorted_view);
                assert(bvh_leaves(node).to_multiset() == orig.to_multiset()) by {
                    assert(bvh_leaves(node) == bvh_leaves(left) + bvh_leaves(right));
                    assert(bvh_leaves(node).to_multiset() =~= bvh_leaves(left)
                        .to_multiset()
                        .add(bvh_leaves(right).to_multiset()));
                    assert((left_view + right_view).to_multiset() =~= left_view
                        .to_multiset()
                        .add(right_view.to_multiset()));
                }
                assert forall|i: int|
                    0 <= i < orig.len() implies aabb_contains(
                    sbbox(node)->0,
                    sbbox(#[trigger] orig[i])->0,
                ) by {
                    assert(orig.contains(orig[i]));
                    lemma_multiset_mem(orig, sorted_view, orig[i]);
                    let j = choose|j: int| 0 <= j < sorted_view.len() && sorted_view[j] == orig[i];
                    if j < (n / 2) as int {
                        assert(sorted_view[j] == left_view[j]);
                        assert(aabb_contains(sbbox(left)->0, sbbox(left_view[j])->0));
                    } else {
                        assert(sorted_view[j] == right_view[j - (n / 2) as int]);
                        assert(aabb_contains(
                            sbbox(right)->0,
                            sbbox(right_view[j - (n / 2) as int])->0,
                        ));
                    }
                }
                assert forall|ray: Ray, rec: HitRecord|
                    #[trigger] hit_rel(node, ray, rec) <==> in_some(orig, ray, rec) by {
                    if hit_rel(node, ray, rec) {
                        if hit_rel(left, ray, rec) {
                            assert(in_some(left_view, ray, rec));
                        } else {
                            assert(hit_rel(right, ray, rec));
                            assert(in_some(right_view, ray, rec));
                        }
                        assert(in_some(sorted_view, ray, rec));
                        assert(in_some(orig, ray, rec));
                    }
                    if in_some(orig, ray, rec) {
                        assert(in_some(sorted_view, ray, rec));
                        assert(in_some(left_view, ray, rec) || in_some(right_view, ray, rec));
                        assert(hit_rel(left, ray, rec) || hit_rel(right, ray, rec));
                        assert(hit_rel(node, ray, rec));
                    }
                }
            }
            node
        }
    }
}

/// A hit query against a hierarchy built over some objects and a query
/// against the flat list of the same objects agree: both miss together;
/// when both hit, they report the same ray parameter; and when no two
/// distinct records share that parameter — no tie — they report the
/// identical record, material reference included. The hierarchy is a pure
/// acceleration structure.
pub proof fn lemma_bvh_matches_list(
    tree: Hitable,
    list: Hitable,
    ray: Ray,
    tmin: Rat,
    tmax: Rat,
    res_tree: Option<HitRecord>,
    res_list: Option<HitRecord>,
)
    requires
        rat_wf(tmin),
        rat_wf(tmax),
        list matches Hitable::HitableList { hitables } && (forall|ray2: Ray, rec: HitRecord|
            #[trigger] hit_rel(tree, ray2, rec) <==> in_some(hitables@, ray2, rec)),
        hit_post(tree, ray, tmin, tmax, res_tree),
        hit_post(list, ray, tmin, tmax, res_list),
    ensures
        res_tree is Some <==> res_list is Some,
        res_tree matches Option::Some(a) ==> (res_list matches Option::Some(b) ==> rat_eq(
            a.t,
            b.t,
        )),
        res_tree matches Option::Some(a) ==> (res_list matches Option::Some(b) ==> ((forall|
            x: HitRecord,
            y: HitRecord,
        |
            #[trigger] hit_rel(tree, ray, x) && #[trigger] hit_rel(tree, ray, y) && rat_eq(
                x.t,
                y.t,
            ) ==> x == y) ==> a == b)),
{
    let hitables = list->hitables;
    assert forall|rec: HitRecord|
        #[trigger] hit_rel(tree, ray, rec) <==> hit_rel(list, ray, rec) by {
        assert(hit_rel(list, ray, rec) == in_some(hitables@, ray, rec));
    }
    lemma_hit_post_agree(tree, list, ray, tmin, tmax, res_tree, res_list);
}

} // verus!

