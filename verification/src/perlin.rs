//! Permutation tables for the procedural noise texture.
//!
//! The noise is built once per texture from three independent random
//! permutations of the 256 lattice indices. A lattice corner's gradient is
//! chosen by combining the three tables with bitwise XOR, so every corner maps
//! to one of the 256 precomputed gradient vectors. The gradient vectors and
//! the interpolation weights are the texture owner's scalar data; this module
//! owns the index tables and the hashed lookup.

use vstd::prelude::*;
use crate::rng::rand_below;

verus! {

/// The lattice indices in their natural order: 0, 1, ..., 255.
pub open spec fn identity_table() -> Seq<u8> {
    Seq::new(256, |i: int| i as u8)
}

/// `s` rearranges the 256 lattice indices: it holds exactly the values
/// 0 through 255, each once.
pub open spec fn is_index_permutation(s: Seq<u8>) -> bool {
    &&& s.len() == 256
    &&& s.to_multiset() == identity_table().to_multiset()
}

/// XOR-hash of one lattice corner: each coordinate is wrapped to the table
/// size and looked up in its own permutation table.
pub open spec fn lattice_hash(
    xt: Seq<u8>,
    yt: Seq<u8>,
    zt: Seq<u8>,
    ci: i64,
    cj: i64,
    ck: i64,
) -> u8 {
    (xt[(ci & 255) as int] ^ yt[(cj & 255) as int]) ^ zt[(ck & 255) as int]
}

/// Shuffle the table in place: walking the positions from the last down to 1,
/// swap each with a randomly drawn earlier position. Whatever positions the
/// draws pick, the table keeps exactly its old elements.
fn permute(input: &mut Vec<u8>)
    requires
        old(input)@.len() == 256,
    ensures
        final(input)@.len() == 256,
        final(input)@.to_multiset() == old(input)@.to_multiset(),
{
    let mut i: usize = 255;
    while i >= 1
        invariant
            i <= 255,
            input@.len() == 256,
            input@.to_multiset() == old(input)@.to_multiset(),
        decreases i,
    {
        let target = rand_below(i);
        let ghost pre = input@;
        let a = input[target];
        let b = input[i];
        input.set(target, b);
        input.set(i, a);
        proof {
            broadcast use vstd::seq_lib::to_multiset_update;
            broadcast use vstd::seq_lib::group_to_multiset_ensures;

            assert(pre.contains(pre[target as int]));
            assert(pre.contains(pre[i as int]));
            assert(input@ == pre.update(target as int, b).update(i as int, a));
            assert(input@.to_multiset() =~= pre.to_multiset());
        }
        i = i - 1;
    }
}

/// Build one random permutation of the 256 lattice indices.
fn generate_permutation() -> (r: Vec<u8>)
    ensures
        is_index_permutation(r@),
{
    let mut result: Vec<u8> = Vec::new();
    let mut i: usize = 0;
    while i < 256
        invariant
            i <= 256,
            result@.len() == i,
            forall|k: int| 0 <= k < i ==> result@[k] == k as u8,
        decreases 256 - i,
    {
        result.push(i as u8);
        i = i + 1;
    }
    proof {
        assert(result@ =~= identity_table());
    }
    permute(&mut result);
    result
}

/// The three independent permutation tables of one noise texture, built once
/// before rendering and read-only afterwards.
pub struct PerlinTables {
    x_permutation: Vec<u8>,
    y_permutation: Vec<u8>,
    z_permutation: Vec<u8>,
}

impl PerlinTables {
    pub closed spec fn x_table(self) -> Seq<u8> {
        self.x_permutation@
    }

    pub closed spec fn y_table(self) -> Seq<u8> {
        self.y_permutation@
    }

    pub closed spec fn z_table(self) -> Seq<u8> {
        self.z_permutation@
    }

    /// Each of the three tables is a permutation of the lattice indices.
    pub closed spec fn well_formed(self) -> bool {
        &&& is_index_permutation(self.x_table())
        &&& is_index_permutation(self.y_table())
        &&& is_index_permutation(self.z_table())
    }

    pub fn new() -> (r: PerlinTables)
        ensures
            r.well_formed(),
    {
        PerlinTables {
            x_permutation: generate_permutation(),
            y_permutation: generate_permutation(),
            z_permutation: generate_permutation(),
        }
    }

    /// One entry of each table, for inspection by the texture owner.
    pub fn x_entry(&self, i: usize) -> (r: u8)
        requires
            self.well_formed(),
            i < 256,
        ensures
            r == self.x_table()[i as int],
    {
        self.x_permutation[i]
    }

    pub fn y_entry(&self, i: usize) -> (r: u8)
        requires
            self.well_formed(),
            i < 256,
        ensures
            r == self.y_table()[i as int],
    {
        self.y_permutation[i]
    }

    pub fn z_entry(&self, i: usize) -> (r: u8)
        requires
            self.well_formed(),
            i < 256,
        ensures
            r == self.z_table()[i as int],
    {
        self.z_permutation[i]
    }

    /// Gradient chosen for the lattice corner (ci, cj, ck): each coordinate is
    /// wrapped to the table size, looked up in its own table, and the three
    /// entries are combined with bitwise XOR.
    pub fn gradient_index(&self, ci: i64, cj: i64, ck: i64) -> (r: u8)
        requires
            self.well_formed(),
        ensures
            r == lattice_hash(self.x_table(), self.y_table(), self.z_table(), ci, cj, ck),
    {
        proof {
            assert(0 <= (ci & 255) < 256 && 0 <= (cj & 255) < 256 && 0 <= (ck & 255) < 256)
                by (bit_vector);
        }
        let xi = (ci & 255) as usize;
        let yi = (cj & 255) as usize;
        let zi = (ck & 255) as usize;
        (self.x_permutation[xi] ^ self.y_permutation[yi]) ^ self.z_permutation[zi]
    }
}

} // verus!
