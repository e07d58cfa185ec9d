//! Exact scalar and vector arithmetic for the geometry core.
//!
//! Scene coordinates are `i64` fixed-point numbers; ray parameters are exact
//! rationals with a positive denominator. All comparisons are performed with
//! `i128` cross products, which cannot overflow for `i64` operands.

use vstd::prelude::*;

verus! {

/// An exact rational number. The denominator is kept positive.
#[derive(Clone, Copy, Debug, PartialEq, Eq, Structural)]
pub struct Rat {
    pub num: i64,
    pub den: i64,
}

/// A rational is well formed when its denominator is positive.
pub open spec fn rat_wf(r: Rat) -> bool {
    0 < r.den
}

/// Order on fractions `n1/d1 < n2/d2`, assuming positive denominators.
pub open spec fn frac_lt(n1: int, d1: int, n2: int, d2: int) -> bool {
    n1 * d2 < n2 * d1
}

/// `n1/d1 <= n2/d2`, assuming positive denominators.
pub open spec fn frac_le(n1: int, d1: int, n2: int, d2: int) -> bool {
    n1 * d2 <= n2 * d1
}

/// Order on rationals.
pub open spec fn rat_lt(a: Rat, b: Rat) -> bool {
    frac_lt(a.num as int, a.den as int, b.num as int, b.den as int)
}

pub open spec fn rat_le(a: Rat, b: Rat) -> bool {
    frac_le(a.num as int, a.den as int, b.num as int, b.den as int)
}

/// Two rationals denote the same value.
pub open spec fn rat_eq(a: Rat, b: Rat) -> bool {
    (a.num as int) * (b.den as int) == (b.num as int) * (a.den as int)
}

/// The product of two `i64` values always fits in `i128`.
pub proof fn lemma_i64_mul_fits(a: int, b: int)
    by (nonlinear_arith)
    requires
        -0x8000_0000_0000_0000 <= a < 0x8000_0000_0000_0000,
        -0x8000_0000_0000_0000 <= b < 0x8000_0000_0000_0000,
    ensures
        i128::MIN <= a * b <= i128::MAX,
{
}

/// Transitivity of the strict fraction order.
pub proof fn lemma_frac_lt_trans(n1: int, d1: int, n2: int, d2: int, n3: int, d3: int)
    by (nonlinear_arith)
    requires
        0 < d1,
        0 < d2,
        0 < d3,
        frac_lt(n1, d1, n2, d2),
        frac_lt(n2, d2, n3, d3),
    ensures
        frac_lt(n1, d1, n3, d3),
{
}

/// A weak bound followed by a strict one stays strict.
pub proof fn lemma_frac_le_lt_trans(n1: int, d1: int, n2: int, d2: int, n3: int, d3: int)
    by (nonlinear_arith)
    requires
        0 < d1,
        0 < d2,
        0 < d3,
        frac_le(n1, d1, n2, d2),
        frac_lt(n2, d2, n3, d3),
    ensures
        frac_lt(n1, d1, n3, d3),
{
}

/// A strict bound followed by a weak one stays strict.
pub proof fn lemma_frac_lt_le_trans(n1: int, d1: int, n2: int, d2: int, n3: int, d3: int)
    by (nonlinear_arith)
    requires
        0 < d1,
        0 < d2,
        0 < d3,
        frac_lt(n1, d1, n2, d2),
        frac_le(n2, d2, n3, d3),
    ensures
        frac_lt(n1, d1, n3, d3),
{
}

/// The rationals are dense: strictly between two ordered rationals lies
/// their mediant-style midpoint.
pub proof fn lemma_frac_dense(n1: int, d1: int, n2: int, d2: int)
    by (nonlinear_arith)
    requires
        0 < d1,
        0 < d2,
        frac_lt(n1, d1, n2, d2),
    ensures
        frac_lt(n1, d1, n1 * d2 + n2 * d1, 2 * d1 * d2),
        frac_lt(n1 * d2 + n2 * d1, 2 * d1 * d2, n2, d2),
        0 < 2 * d1 * d2,
{
}

impl Rat {
    /// Builds the rational `num / den`.
    pub fn new(num: i64, den: i64) -> (r: Rat)
        requires
            0 < den,
        ensures
            r.num == num,
            r.den == den,
            rat_wf(r),
    {
        Rat { num, den }
    }

    /// Exact comparison `self < other` by `i128` cross multiplication.
    pub fn lt(&self, other: &Rat) -> (r: bool)
        requires
            rat_wf(*self),
            rat_wf(*other),
        ensures
            r == rat_lt(*self, *other),
    {
        proof {
            lemma_i64_mul_fits(self.num as int, other.den as int);
            lemma_i64_mul_fits(other.num as int, self.den as int);
        }
        (self.num as i128) * (other.den as i128) < (other.num as i128) * (self.den as i128)
    }

    /// Exact comparison `self <= other`.
    pub fn le(&self, other: &Rat) -> (r: bool)
        requires
            rat_wf(*self),
            rat_wf(*other),
        ensures
            r == rat_le(*self, *other),
    {
        proof {
            lemma_i64_mul_fits(self.num as int, other.den as int);
            lemma_i64_mul_fits(other.num as int, self.den as int);
        }
        (self.num as i128) * (other.den as i128) <= (other.num as i128) * (self.den as i128)
    }

    /// The larger of two rationals under the exact order.
    pub fn max(a: Rat, b: Rat) -> (r: Rat)
        requires
            rat_wf(a),
            rat_wf(b),
        ensures
            rat_wf(r),
            r == a || r == b,
            rat_le(a, r),
            rat_le(b, r),
    {
        proof {
            lemma_frac_total(a.num as int, a.den as int, b.num as int, b.den as int);
        }
        if a.lt(&b) {
            b
        } else {
            a
        }
    }

    /// The smaller of two rationals under the exact order.
    pub fn min(a: Rat, b: Rat) -> (r: Rat)
        requires
            rat_wf(a),
            rat_wf(b),
        ensures
            rat_wf(r),
            r == a || r == b,
            rat_le(r, a),
            rat_le(r, b),
    {
        proof {
            lemma_frac_total(a.num as int, a.den as int, b.num as int, b.den as int);
        }
        if a.lt(&b) {
            a
        } else {
            b
        }
    }
}

/// The fraction order is total: not below means at or above.
pub proof fn lemma_frac_total(n1: int, d1: int, n2: int, d2: int)
    by (nonlinear_arith)
    requires
        0 < d1,
        0 < d2,
    ensures
        !frac_lt(n1, d1, n2, d2) ==> frac_le(n2, d2, n1, d1),
        frac_le(n1, d1, n2, d2) || frac_le(n2, d2, n1, d1),
{
}

/// Bounded factors give a bounded product.
pub proof fn lemma_mul_bound(a: int, b: int, aa: int, bb: int)
    by (nonlinear_arith)
    requires
        0 <= aa,
        0 <= bb,
        -aa <= a <= aa,
        -bb <= b <= bb,
    ensures
        -(aa * bb) <= a * b <= aa * bb,
{
}

/// A fixed-point 3-vector of scene coordinates.
#[derive(Clone, Copy, Debug, PartialEq, Eq, Structural)]
pub struct Vector3 {
    pub x: i64,
    pub y: i64,
    pub z: i64,
}

/// Every component of `v` lies within `bound`.
pub open spec fn vec_in(v: Vector3, bound: int) -> bool {
    &&& -bound <= v.x <= bound
    &&& -bound <= v.y <= bound
    &&& -bound <= v.z <= bound
}

impl Vector3 {
    pub fn new(x: i64, y: i64, z: i64) -> (r: Vector3)
        ensures
            r == (Vector3 { x, y, z }),
    {
        Vector3 { x, y, z }
    }

    pub fn zero() -> (r: Vector3)
        ensures
            r == (Vector3 { x: 0i64, y: 0i64, z: 0i64 }),
    {
        Vector3 { x: 0, y: 0, z: 0 }
    }

    /// Componentwise sum.
    pub fn add(&self, o: &Vector3) -> (r: Vector3)
        requires
            i64::MIN <= self.x + o.x <= i64::MAX,
            i64::MIN <= self.y + o.y <= i64::MAX,
            i64::MIN <= self.z + o.z <= i64::MAX,
        ensures
            r.x == self.x + o.x,
            r.y == self.y + o.y,
            r.z == self.z + o.z,
    {
        Vector3 { x: self.x + o.x, y: self.y + o.y, z: self.z + o.z }
    }

    /// Componentwise difference.
    pub fn sub(&self, o: &Vector3) -> (r: Vector3)
        requires
            i64::MIN <= self.x - o.x <= i64::MAX,
            i64::MIN <= self.y - o.y <= i64::MAX,
            i64::MIN <= self.z - o.z <= i64::MAX,
        ensures
            r.x == self.x - o.x,
            r.y == self.y - o.y,
            r.z == self.z - o.z,
    {
        Vector3 { x: self.x - o.x, y: self.y - o.y, z: self.z - o.z }
    }

    /// Componentwise negation.
    pub fn neg(&self) -> (r: Vector3)
        requires
            i64::MIN < self.x,
            i64::MIN < self.y,
            i64::MIN < self.z,
        ensures
            r.x == -self.x,
            r.y == -self.y,
            r.z == -self.z,
    {
        Vector3 { x: -self.x, y: -self.y, z: -self.z }
    }

    /// Exact dot product, computed in `i128`.
    pub fn dot(&self, o: &Vector3) -> (r: i128)
        requires
            vec_in(*self, 0x4000_0000_0000_0000),
            vec_in(*o, 0x4000_0000_0000_0000),
        ensures
            r == (self.x as int) * (o.x as int) + (self.y as int) * (o.y as int) + (self.z
                as int) * (o.z as int),
    {
        proof {
            lemma_dot_fits(
                self.x as int,
                self.y as int,
                self.z as int,
                o.x as int,
                o.y as int,
                o.z as int,
            );
        }
        (self.x as i128) * (o.x as i128) + (self.y as i128) * (o.y as i128) + (self.z as i128) * (
        o.z as i128)
    }
}

proof fn lemma_dot_fits(ax: int, ay: int, az: int, bx: int, by: int, bz: int)
    by (nonlinear_arith)
    requires
        -0x4000_0000_0000_0000 <= ax <= 0x4000_0000_0000_0000,
        -0x4000_0000_0000_0000 <= ay <= 0x4000_0000_0000_0000,
        -0x4000_0000_0000_0000 <= az <= 0x4000_0000_0000_0000,
        -0x4000_0000_0000_0000 <= bx <= 0x4000_0000_0000_0000,
        -0x4000_0000_0000_0000 <= by <= 0x4000_0000_0000_0000,
        -0x4000_0000_0000_0000 <= bz <= 0x4000_0000_0000_0000,
    ensures
        i128::MIN <= ax * bx <= i128::MAX,
        i128::MIN <= ay * by <= i128::MAX,
        i128::MIN <= az * bz <= i128::MAX,
        i128::MIN <= ax * bx + ay * by <= i128::MAX,
        i128::MIN <= ax * bx + ay * by + az * bz <= i128::MAX,
{
}

/// A ray: origin, direction (not necessarily normalized) and shutter time.
#[derive(Clone, Copy, Debug)]
pub struct Ray {
    pub origin: Vector3,
    pub direction: Vector3,
    pub time: Rat,
}

impl Ray {
    pub fn new(origin: Vector3, direction: Vector3, time: Rat) -> (r: Ray)
        ensures
            r == (Ray { origin, direction, time }),
    {
        Ray { origin, direction, time }
    }

    /// The exact point `origin + t * direction`, one rational per axis over
    /// the common denominator `t.den`.
    pub fn point_at_parameter(&self, t: Rat) -> (r: RPoint)
        requires
            rat_wf(t),
            vec_in(self.origin, 0x4000_0000_0000_0000),
            vec_in(self.direction, 0x4000_0000_0000_0000),
            -0x4000_0000_0000_0000 <= t.num <= 0x4000_0000_0000_0000,
            t.den <= 0x4000_0000_0000_0000,
        ensures
            r.den == t.den,
            r.nx == (self.origin.x as int) * (t.den as int) + (t.num as int) * (self.direction.x
                as int),
            r.ny == (self.origin.y as int) * (t.den as int) + (t.num as int) * (self.direction.y
                as int),
            r.nz == (self.origin.z as int) * (t.den as int) + (t.num as int) * (self.direction.z
                as int),
            0 < r.den,
    {
        proof {
            lemma_point_fits(self.origin.x as int, t.den as int, t.num as int, self.direction.x as int);
            lemma_point_fits(self.origin.y as int, t.den as int, t.num as int, self.direction.y as int);
            lemma_point_fits(self.origin.z as int, t.den as int, t.num as int, self.direction.z as int);
        }
        RPoint {
            nx: (self.origin.x as i128) * (t.den as i128) + (t.num as i128) * (self.direction.x
                as i128),
            ny: (self.origin.y as i128) * (t.den as i128) + (t.num as i128) * (self.direction.y
                as i128),
            nz: (self.origin.z as i128) * (t.den as i128) + (t.num as i128) * (self.direction.z
                as i128),
            den: t.den as i128,
        }
    }
}

proof fn lemma_point_fits(o: int, td: int, tn: int, d: int)
    by (nonlinear_arith)
    requires
        -0x4000_0000_0000_0000 <= o <= 0x4000_0000_0000_0000,
        -0x4000_0000_0000_0000 <= td <= 0x4000_0000_0000_0000,
        -0x4000_0000_0000_0000 <= tn <= 0x4000_0000_0000_0000,
        -0x4000_0000_0000_0000 <= d <= 0x4000_0000_0000_0000,
    ensures
        i128::MIN <= o * td <= i128::MAX,
        i128::MIN <= tn * d <= i128::MAX,
        i128::MIN <= o * td + tn * d <= i128::MAX,
{
}

/// An exact point with rational coordinates `nx/den, ny/den, nz/den`.
#[derive(Clone, Copy, Debug)]
pub struct RPoint {
    pub nx: i128,
    pub ny: i128,
    pub nz: i128,
    pub den: i128,
}

} // verus!
