//! Axis-aligned bounding boxes with an exact slab test.
//!
//! `AABB::hit` is specified against the mathematics it implements: it returns
//! true exactly when some rational parameter `t` strictly between `tmin` and
//! `tmax` places the ray strictly inside the box on every axis.

use vstd::prelude::*;
use crate::math::{Rat, Ray, Vector3, rat_wf, rat_lt, rat_le, frac_lt, vec_in, lemma_frac_lt_trans, lemma_frac_le_lt_trans, lemma_frac_lt_le_trans, lemma_frac_dense};

verus! {

/// Coordinates handled by the exact slab test stay within this bound,
/// so that differences of two coordinates fit in an `i64`.
pub const COORD_LIMIT: i64 = 0x2000_0000_0000_0000;

/// An axis-aligned box given by two opposite corners.
#[derive(Clone, Copy, Debug, PartialEq, Eq, Structural)]
pub struct AABB {
    pub min: Vector3,
    pub max: Vector3,
}

/// At parameter `tn/td` (with `td > 0`), the ray is strictly inside the slab
/// `[lo, hi]` of the axis with origin `o` and direction `d`. Both sides are
/// scaled by `td`, so the statement is pure integer arithmetic.
pub open spec fn axis_inside(lo: int, hi: int, o: int, d: int, tn: int, td: int) -> bool {
    lo * td < o * td + tn * d && o * td + tn * d < hi * td
}

/// At parameter `tn/td` the ray is strictly inside the box on every axis.
pub open spec fn box_pierced_at(bb: AABB, r: Ray, tn: int, td: int) -> bool {
    &&& 0 < td
    &&& axis_inside(bb.min.x as int, bb.max.x as int, r.origin.x as int, r.direction.x as int, tn, td)
    &&& axis_inside(bb.min.y as int, bb.max.y as int, r.origin.y as int, r.direction.y as int, tn, td)
    &&& axis_inside(bb.min.z as int, bb.max.z as int, r.origin.z as int, r.direction.z as int, tn, td)
}

/// The rational `tn/td` lies strictly between the rationals `lo` and `hi`.
pub open spec fn frac_btw(lo: Rat, hi: Rat, tn: int, td: int) -> bool {
    frac_lt(lo.num as int, lo.den as int, tn, td) && frac_lt(tn, td, hi.num as int, hi.den as int)
}

/// The ray pierces the box at some parameter strictly inside `(tmin, tmax)`.
pub open spec fn box_hit_between(bb: AABB, r: Ray, tmin: Rat, tmax: Rat, tn: int, td: int) -> bool {
    box_pierced_at(bb, r, tn, td) && frac_btw(tmin, tmax, tn, td)
}

/// Every coordinate of the box and the ray is within [`COORD_LIMIT`].
pub open spec fn slab_bounds(bb: AABB, r: Ray) -> bool {
    &&& vec_in(bb.min, COORD_LIMIT as int)
    &&& vec_in(bb.max, COORD_LIMIT as int)
    &&& vec_in(r.origin, COORD_LIMIT as int)
    &&& vec_in(r.direction, COORD_LIMIT as int)
}

/// For a positive direction component, being inside the slab is the same as
/// the parameter lying strictly between the two plane crossings.
proof fn lemma_axis_pos(lo: int, hi: int, o: int, d: int, tn: int, td: int)
    by (nonlinear_arith)
    requires
        0 < d,
        0 < td,
    ensures
        axis_inside(lo, hi, o, d, tn, td) <==> (frac_lt(lo - o, d, tn, td) && frac_lt(
            tn,
            td,
            hi - o,
            d,
        )),
{
}

/// For a negative direction component, the two plane crossings swap roles.
proof fn lemma_axis_neg(lo: int, hi: int, o: int, d: int, tn: int, td: int)
    by (nonlinear_arith)
    requires
        d < 0,
        0 < td,
    ensures
        axis_inside(lo, hi, o, d, tn, td) <==> (frac_lt(o - hi, -d, tn, td) && frac_lt(
            tn,
            td,
            o - lo,
            -d,
        )),
{
}

/// For a zero direction component, the parameter is irrelevant: the slab is
/// crossed exactly when the origin lies strictly inside it.
proof fn lemma_axis_zero(lo: int, hi: int, o: int, tn: int, td: int)
    by (nonlinear_arith)
    requires
        0 < td,
    ensures
        axis_inside(lo, hi, o, 0, tn, td) <==> (lo < o && o < hi),
{
}

/// Clips the running parameter interval `(cur_lo, cur_hi)` against one slab.
/// The returned interval contains exactly the parameters that were in the
/// running interval and inside the slab.
fn clip_axis(lo_c: i64, hi_c: i64, o: i64, d: i64, cur_lo: Rat, cur_hi: Rat) -> (res: (Rat, Rat))
    requires
        rat_wf(cur_lo),
        rat_wf(cur_hi),
        -COORD_LIMIT <= lo_c <= COORD_LIMIT,
        -COORD_LIMIT <= hi_c <= COORD_LIMIT,
        -COORD_LIMIT <= o <= COORD_LIMIT,
        -COORD_LIMIT <= d <= COORD_LIMIT,
    ensures
        rat_wf(res.0),
        rat_wf(res.1),
        forall|tn: int, td: int|
            0 < td ==> (#[trigger] frac_btw(res.0, res.1, tn, td) <==> (frac_btw(
                cur_lo,
                cur_hi,
                tn,
                td,
            ) && axis_inside(lo_c as int, hi_c as int, o as int, d as int, tn, td))),
{
    if d == 0 {
        if lo_c < o && o < hi_c {
            proof {
                assert forall|tn: int, td: int| 0 < td implies (#[trigger] frac_btw(
                    cur_lo,
                    cur_hi,
                    tn,
                    td,
                ) <==> (frac_btw(cur_lo, cur_hi, tn, td) && axis_inside(
                    lo_c as int,
                    hi_c as int,
                    o as int,
                    d as int,
                    tn,
                    td,
                ))) by {
                    lemma_axis_zero(lo_c as int, hi_c as int, o as int, tn, td);
                }
            }
            (cur_lo, cur_hi)
        } else {
            proof {
                assert forall|tn: int, td: int| 0 < td implies (#[trigger] frac_btw(
                    cur_lo,
                    cur_lo,
                    tn,
                    td,
                ) <==> (frac_btw(cur_lo, cur_hi, tn, td) && axis_inside(
                    lo_c as int,
                    hi_c as int,
                    o as int,
                    d as int,
                    tn,
                    td,
                ))) by {
                    lemma_axis_zero(lo_c as int, hi_c as int, o as int, tn, td);
                    if frac_btw(cur_lo, cur_lo, tn, td) {
                        lemma_frac_lt_trans(
                            cur_lo.num as int,
                            cur_lo.den as int,
                            tn,
                            td,
                            cur_lo.num as int,
                            cur_lo.den as int,
                        );
                    }
                }
            }
            (cur_lo, cur_lo)
        }
    } else if d > 0 {
        let t_lo = Rat::new(lo_c - o, d);
        let t_hi = Rat::new(hi_c - o, d);
        let new_lo = Rat::max(cur_lo, t_lo);
        let new_hi = Rat::min(cur_hi, t_hi);
        proof {
            assert forall|tn: int, td: int| 0 < td implies (#[trigger] frac_btw(
                new_lo,
                new_hi,
                tn,
                td,
            ) <==> (frac_btw(cur_lo, cur_hi, tn, td) && axis_inside(
                lo_c as int,
                hi_c as int,
                o as int,
                d as int,
                tn,
                td,
            ))) by {
                lemma_axis_pos(lo_c as int, hi_c as int, o as int, d as int, tn, td);
                if frac_btw(new_lo, new_hi, tn, td) {
                    lemma_frac_le_lt_trans(
                        cur_lo.num as int,
                        cur_lo.den as int,
                        new_lo.num as int,
                        new_lo.den as int,
                        tn,
                        td,
                    );
                    lemma_frac_le_lt_trans(
                        t_lo.num as int,
                        t_lo.den as int,
                        new_lo.num as int,
                        new_lo.den as int,
                        tn,
                        td,
                    );
                    lemma_frac_lt_le_trans(
                        tn,
                        td,
                        new_hi.num as int,
                        new_hi.den as int,
                        cur_hi.num as int,
                        cur_hi.den as int,
                    );
                    lemma_frac_lt_le_trans(
                        tn,
                        td,
                        new_hi.num as int,
                        new_hi.den as int,
                        t_hi.num as int,
                        t_hi.den as int,
                    );
                }
            }
        }
        (new_lo, new_hi)
    } else {
        let t_lo = Rat::new(o - hi_c, -d);
        let t_hi = Rat::new(o - lo_c, -d);
        let new_lo = Rat::max(cur_lo, t_lo);
        let new_hi = Rat::min(cur_hi, t_hi);
        proof {
            assert forall|tn: int, td: int| 0 < td implies (#[trigger] frac_btw(
                new_lo,
                new_hi,
                tn,
                td,
            ) <==> (frac_btw(cur_lo, cur_hi, tn, td) && axis_inside(
                lo_c as int,
                hi_c as int,
                o as int,
                d as int,
                tn,
                td,
            ))) by {
                lemma_axis_neg(lo_c as int, hi_c as int, o as int, d as int, tn, td);
                if frac_btw(new_lo, new_hi, tn, td) {
                    lemma_frac_le_lt_trans(
                        cur_lo.num as int,
                        cur_lo.den as int,
                        new_lo.num as int,
                        new_lo.den as int,
                        tn,
                        td,
                    );
                    lemma_frac_le_lt_trans(
                        t_lo.num as int,
                        t_lo.den as int,
                        new_lo.num as int,
                        new_lo.den as int,
                        tn,
                        td,
                    );
                    lemma_frac_lt_le_trans(
                        tn,
                        td,
                        new_hi.num as int,
                        new_hi.den as int,
                        cur_hi.num as int,
                        cur_hi.den as int,
                    );
                    lemma_frac_lt_le_trans(
                        tn,
                        td,
                        new_hi.num as int,
                        new_hi.den as int,
                        t_hi.num as int,
                        t_hi.den as int,
                    );
                }
            }
        }
        (new_lo, new_hi)
    }
}

/// Shows that an interval whose bounds are not strictly ordered is empty.
proof fn lemma_empty_interval(lo: Rat, hi: Rat)
    requires
        rat_wf(lo),
        rat_wf(hi),
        !rat_lt(lo, hi),
    ensures
        forall|tn: int, td: int| 0 < td ==> !#[trigger] frac_btw(lo, hi, tn, td),
{
    assert forall|tn: int, td: int| 0 < td implies !#[trigger] frac_btw(lo, hi, tn, td) by {
        if frac_btw(lo, hi, tn, td) {
            lemma_frac_lt_trans(
                lo.num as int,
                lo.den as int,
                tn,
                td,
                hi.num as int,
                hi.den as int,
            );
        }
    }
}

impl AABB {
    pub fn new(min: Vector3, max: Vector3) -> (r: AABB)
        ensures
            r == (AABB { min, max }),
    {
        AABB { min, max }
    }

    pub fn min(&self) -> (r: Vector3)
        ensures
            r == self.min,
    {
        self.min
    }

    pub fn max(&self) -> (r: Vector3)
        ensures
            r == self.max,
    {
        self.max
    }

    /// The slab test: clips the parameter interval against the three slabs
    /// and succeeds when a parameter strictly inside the box remains.
    pub fn hit(&self, r: &Ray, tmin: Rat, tmax: Rat) -> (res: bool)
        requires
            rat_wf(tmin),
            rat_wf(tmax),
            slab_bounds(*self, *r),
        ensures
            res == exists|tn: int, td: int|
                #[trigger] box_hit_between(*self, *r, tmin, tmax, tn, td),
    {
        let (lo1, hi1) = clip_axis(
            self.min.x,
            self.max.x,
            r.origin.x,
            r.direction.x,
            tmin,
            tmax,
        );
        if !lo1.lt(&hi1) {
            proof {
                lemma_empty_interval(lo1, hi1);
                assert forall|tn: int, td: int| !#[trigger] box_hit_between(
                    *self,
                    *r,
                    tmin,
                    tmax,
                    tn,
                    td,
                ) by {
                    if box_hit_between(*self, *r, tmin, tmax, tn, td) {
                        assert(frac_btw(lo1, hi1, tn, td));
                    }
                }
            }
            return false;
        }
        let (lo2, hi2) = clip_axis(
            self.min.y,
            self.max.y,
            r.origin.y,
            r.direction.y,
            lo1,
            hi1,
        );
        if !lo2.lt(&hi2) {
            proof {
                lemma_empty_interval(lo2, hi2);
                assert forall|tn: int, td: int| !#[trigger] box_hit_between(
                    *self,
                    *r,
                    tmin,
                    tmax,
                    tn,
                    td,
                ) by {
                    if box_hit_between(*self, *r, tmin, tmax, tn, td) {
                        assert(frac_btw(lo1, hi1, tn, td));
                        assert(frac_btw(lo2, hi2, tn, td));
                    }
                }
            }
            return false;
        }
        let (lo3, hi3) = clip_axis(
            self.min.z,
            self.max.z,
            r.origin.z,
            r.direction.z,
            lo2,
            hi2,
        );
        if !lo3.lt(&hi3) {
            proof {
                lemma_empty_interval(lo3, hi3);
                assert forall|tn: int, td: int| !#[trigger] box_hit_between(
                    *self,
                    *r,
                    tmin,
                    tmax,
                    tn,
                    td,
                ) by {
                    if box_hit_between(*self, *r, tmin, tmax, tn, td) {
                        assert(frac_btw(lo1, hi1, tn, td));
                        assert(frac_btw(lo2, hi2, tn, td));
                        assert(frac_btw(lo3, hi3, tn, td));
                    }
                }
            }
            return false;
        }
        proof {
            lemma_frac_dense(lo3.num as int, lo3.den as int, hi3.num as int, hi3.den as int);
            let tn = (lo3.num as int) * (hi3.den as int) + (hi3.num as int) * (lo3.den as int);
            let td = 2 * (lo3.den as int) * (hi3.den as int);
            assert(frac_btw(lo3, hi3, tn, td));
            assert(frac_btw(lo2, hi2, tn, td));
            assert(frac_btw(lo1, hi1, tn, td));
            assert(box_hit_between(*self, *r, tmin, tmax, tn, td));
        }
        true
    }

    /// The componentwise union of two boxes.
    pub fn surrounding_box(box0: AABB, box1: AABB) -> (r: AABB)
        ensures
            r.min.x == imin_spec(box0.min.x as int, box1.min.x as int),
            r.min.y == imin_spec(box0.min.y as int, box1.min.y as int),
            r.min.z == imin_spec(box0.min.z as int, box1.min.z as int),
            r.max.x == imax_spec(box0.max.x as int, box1.max.x as int),
            r.max.y == imax_spec(box0.max.y as int, box1.max.y as int),
            r.max.z == imax_spec(box0.max.z as int, box1.max.z as int),
            aabb_contains(r, box0),
            aabb_contains(r, box1),
    {
        let small = Vector3::new(
            imin(box0.min.x, box1.min.x),
            imin(box0.min.y, box1.min.y),
            imin(box0.min.z, box1.min.z),
        );
        let big = Vector3::new(
            imax(box0.max.x, box1.max.x),
            imax(box0.max.y, box1.max.y),
            imax(box0.max.z, box1.max.z),
        );
        AABB::new(small, big)
    }
}

/// `outer` contains `inner`: its corners bound the corners of `inner`.
pub open spec fn aabb_contains(outer: AABB, inner: AABB) -> bool {
    &&& outer.min.x <= inner.min.x
    &&& outer.min.y <= inner.min.y
    &&& outer.min.z <= inner.min.z
    &&& inner.max.x <= outer.max.x
    &&& inner.max.y <= outer.max.y
    &&& inner.max.z <= outer.max.z
}

/// A ray that pierces a box also pierces every box that contains it.
pub proof fn lemma_contains_pierce(outer: AABB, inner: AABB, r: Ray, tn: int, td: int)
    by (nonlinear_arith)
    requires
        aabb_contains(outer, inner),
        box_pierced_at(inner, r, tn, td),
    ensures
        box_pierced_at(outer, r, tn, td),
{
}

/// Shrinking the parameter interval never turns a miss into a hit: a hit
/// within the shrunk interval is a hit within the original one.
pub proof fn lemma_aabb_hit_monotone(bb: AABB, r: Ray, tmin: Rat, tmax: Rat, tmin2: Rat, tmax2: Rat)
    requires
        rat_wf(tmin),
        rat_wf(tmax),
        rat_wf(tmin2),
        rat_wf(tmax2),
        rat_le(tmin, tmin2),
        rat_le(tmax2, tmax),
        exists|tn: int, td: int| #[trigger] box_hit_between(bb, r, tmin2, tmax2, tn, td),
    ensures
        exists|tn: int, td: int| #[trigger] box_hit_between(bb, r, tmin, tmax, tn, td),
{
    let (tn, td) = choose|tn: int, td: int| #[trigger] box_hit_between(bb, r, tmin2, tmax2, tn, td);
    lemma_frac_le_lt_trans(tmin.num as int, tmin.den as int, tmin2.num as int, tmin2.den as int, tn, td);
    lemma_frac_lt_le_trans(tn, td, tmax2.num as int, tmax2.den as int, tmax.num as int, tmax.den as int);
    assert(box_hit_between(bb, r, tmin, tmax, tn, td));
}

pub open spec fn imin_spec(a: int, b: int) -> int {
    if a < b {
        a
    } else {
        b
    }
}

pub open spec fn imax_spec(a: int, b: int) -> int {
    if a > b {
        a
    } else {
        b
    }
}

/// The smaller of two coordinates.
fn imin(a: i64, b: i64) -> (r: i64)
    ensures
        r == imin_spec(a as int, b as int),
{
    if a < b {
        a
    } else {
        b
    }
}

/// The larger of two coordinates.
fn imax(a: i64, b: i64) -> (r: i64)
    ensures
        r == imax_spec(a as int, b as int),
{
    if a > b {
        a
    } else {
        b
    }
}

} // verus!
