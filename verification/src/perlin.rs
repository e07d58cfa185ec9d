//! The permutation tables of the Perlin noise generator.
//!
//! The gradient vectors and the interpolated noise itself are
//! floating-point and live with the renderer's texturing; the tables that
//! index them are exact: each is a random permutation of `0..256`, and the
//! lattice lookup always lands inside the gradient array.

use vstd::prelude::*;
use crate::random::random_u32;

verus! {

/// The size of a permutation table.
pub const TABLE_SIZE: usize = 256;

/// The sequence holds every value below `TABLE_SIZE` somewhere, and nothing
/// else: with the right length, a permutation of `0..TABLE_SIZE`.
pub open spec fn is_perm_table(s: Seq<usize>) -> bool {
    &&& s.len() == TABLE_SIZE
    &&& forall|i: int| 0 <= i < s.len() ==> #[trigger] s[i] < TABLE_SIZE
    &&& forall|v: usize| v < TABLE_SIZE ==> #[trigger] s.contains(v)
}

/// Draws the table: starts from the identity and repeatedly moves a
/// uniformly chosen remaining entry to the output.
fn generate_perm() -> (r: Vec<usize>)
    ensures
        is_perm_table(r@),
{
    let mut pool: Vec<usize> = Vec::new();
    let mut i: usize = 0;
    while i < TABLE_SIZE
        invariant
            0 <= i <= TABLE_SIZE,
            pool@.len() == i,
            forall|j: int| 0 <= j < i ==> #[trigger] pool@[j] == j,
        decreases TABLE_SIZE - i,
    {
        pool.push(i);
        i = i + 1;
    }
    let ghost identity = pool@;
    let mut out: Vec<usize> = Vec::new();
    proof {
        broadcast use vstd::multiset::group_multiset_axioms;

        assert forall|x: usize| out@.to_multiset().count(x) == 0 by {
            out@.to_multiset_ensures();
            assert(!out@.contains(x));
        }
        assert(out@.to_multiset().add(pool@.to_multiset()) =~= identity.to_multiset());
    }
    while pool.len() > 0
        invariant
            out@.to_multiset().add(pool@.to_multiset()) =~= identity.to_multiset(),
            out@.len() + pool@.len() == TABLE_SIZE,
            identity.len() == TABLE_SIZE,
            forall|j: int| 0 <= j < TABLE_SIZE ==> #[trigger] identity[j] == j,
        decreases pool.len(),
    {
        let k = (random_u32() as usize) % pool.len();
        let ghost old_pool = pool@;
        let ghost old_out = out@;
        let x = pool.remove(k);
        out.push(x);
        proof {
            broadcast use vstd::multiset::group_multiset_axioms;

            old_pool.to_multiset_ensures();
            old_out.to_multiset_ensures();
            old_pool.remove_ensures(k as int);
            assert(out@.to_multiset() =~= old_out.to_multiset().insert(x));
            assert(pool@.to_multiset() =~= old_pool.to_multiset().remove(x));
            assert(old_pool.contains(x));
            assert(old_pool.to_multiset().count(x) > 0);
            assert(out@.to_multiset().add(pool@.to_multiset()) =~= identity.to_multiset());
        }
    }
    proof {
        broadcast use vstd::multiset::group_multiset_axioms;

        assert forall|x: usize| pool@.to_multiset().count(x) == 0 by {
            pool@.to_multiset_ensures();
            assert(!pool@.contains(x));
        }
        assert(out@.to_multiset() =~= identity.to_multiset());
        out@.to_multiset_ensures();
        identity.to_multiset_ensures();
        assert forall|i2: int| 0 <= i2 < out@.len() implies #[trigger] out@[i2]
            < TABLE_SIZE by {
            assert(out@.contains(out@[i2]));
            assert(out@.to_multiset().count(out@[i2]) > 0);
            assert(identity.contains(out@[i2]));
        }
        assert forall|v: usize| v < TABLE_SIZE implies #[trigger] out@.contains(v) by {
            assert(identity[v as int] == v);
            assert(identity.contains(v));
            assert(identity.to_multiset().count(v) > 0);
        }
    }
    out
}

/// The noise generator's index tables, one random permutation per axis.
pub struct Perlin {
    pub perm_x: Vec<usize>,
    pub perm_y: Vec<usize>,
    pub perm_z: Vec<usize>,
}

/// Every table is a permutation of `0..TABLE_SIZE`.
pub open spec fn perlin_wf(p: Perlin) -> bool {
    &&& is_perm_table(p.perm_x@)
    &&& is_perm_table(p.perm_y@)
    &&& is_perm_table(p.perm_z@)
}

impl Perlin {
    pub fn new() -> (r: Perlin)
        ensures
            perlin_wf(r),
    {
        Perlin {
            perm_x: generate_perm(),
            perm_y: generate_perm(),
            perm_z: generate_perm(),
        }
    }

    /// The gradient index of one lattice corner: the three axis tables are
    /// combined by exclusive or, which stays below the table size.
    pub fn gradient_index(&self, xi: u8, yi: u8, zi: u8) -> (r: usize)
        requires
            perlin_wf(*self),
        ensures
            r == (self.perm_x@[xi as int] ^ self.perm_y@[yi as int]) ^ self.perm_z@[zi as int],
            r < TABLE_SIZE,
    {
        let a = self.perm_x[xi as usize];
        let b = self.perm_y[yi as usize];
        let c = self.perm_z[zi as usize];
        proof {
            assert(a < 256 && b < 256 && c < 256 ==> ((a ^ b) ^ c) < 256) by (bit_vector);
        }
        (a ^ b) ^ c
    }
}

} // verus!
