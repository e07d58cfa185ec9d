//! Probability densities over directions.
//!
//! The leaf densities (the cosine lobe, the solid angle of a light) are
//! irrational and are evaluated by the renderer's shading; the library
//! holds the part that has an exact statement: the even mixture of two
//! densities, which is what keeps the estimator unbiased.

use vstd::prelude::*;
use crate::math::{Rat, rat_wf, lemma_mul_bound};
use crate::random::random_u32;

verus! {

/// Density values handled exactly stay within this bound.
pub const PDF_LIMIT: i64 = 0x4000_0000;

/// The even mixture of two densities.
pub struct MixturePDF {}

impl MixturePDF {
    /// The mixture's density at a direction where the two component
    /// densities are `v0` and `v1`: exactly `(v0 + v1) / 2`.
    pub fn value(v0: Rat, v1: Rat) -> (r: Rat)
        requires
            rat_wf(v0),
            rat_wf(v1),
            -PDF_LIMIT <= v0.num <= PDF_LIMIT,
            v0.den <= PDF_LIMIT,
            -PDF_LIMIT <= v1.num <= PDF_LIMIT,
            v1.den <= PDF_LIMIT,
        ensures
            rat_wf(r),
            r.num as int == v0.num * v1.den + v1.num * v0.den,
            r.den as int == 2 * (v0.den * v1.den),
    {
        proof {
            lemma_mul_bound(v0.num as int, v1.den as int, PDF_LIMIT as int, PDF_LIMIT as int);
            lemma_mul_bound(v1.num as int, v0.den as int, PDF_LIMIT as int, PDF_LIMIT as int);
            lemma_mul_bound(v0.den as int, v1.den as int, PDF_LIMIT as int, PDF_LIMIT as int);
            assert((v0.den as int) * (v1.den as int) > 0) by (nonlinear_arith)
                requires
                    0 < v0.den,
                    0 < v1.den,
            ;
        }
        Rat::new(v0.num * v1.den + v1.num * v0.den, 2 * (v0.den * v1.den))
    }

    /// Picks the component to draw the next direction from, each with equal
    /// probability.
    pub fn pick_component() -> (r: usize)
        ensures
            r < 2,
    {
        (random_u32() % 2) as usize
    }
}

/// The mixture density is exactly the half-sum of its components: a value
/// `r` built by [`MixturePDF::value`] from `v0` and `v1` satisfies
/// `r == (v0 + v1) / 2` as rationals.
pub proof fn lemma_mixture_value(v0: Rat, v1: Rat, r: Rat)
    by (nonlinear_arith)
    requires
        rat_wf(v0),
        rat_wf(v1),
        r.num as int == v0.num * v1.den + v1.num * v0.den,
        r.den as int == 2 * (v0.den * v1.den),
    ensures
        0 < r.den,
        2 * (r.num as int) * ((v0.den as int) * (v1.den as int)) == ((v0.num as int) * (v1.den
            as int) + (v1.num as int) * (v0.den as int)) * (r.den as int),
{
}

} // verus!
