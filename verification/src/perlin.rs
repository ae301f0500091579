//! The lattice of Perlin noise: three random permutations and the gradient
//! that they assign to each lattice point.
use vstd::prelude::*;
use crate::rtweekend::random_below;
use crate::vec3::Vec3;

verus! {

/// The number of gradients, and the length of each permutation.
pub const POINT_COUNT: usize = 256;

/// `p` holds each of the numbers below its length once.
pub open spec fn is_permutation(p: Seq<usize>) -> bool {
    &&& forall|i: int| 0 <= i < p.len() ==> (#[trigger] p[i]) < p.len()
    &&& forall|i: int, j: int| 0 <= i < j < p.len() ==> p[i] != p[j]
}

/// A lattice coordinate, folded into the range of the permutations.
pub open spec fn folded(i: int) -> int {
    i % (POINT_COUNT as int)
}

/// The noise lattice: a gradient for every index, and three permutations
/// of the indices.
#[derive(Debug)]
pub struct Perlin {
    ranvec: Vec<Vec3>,
    perm_x: Vec<usize>,
    perm_y: Vec<usize>,
    perm_z: Vec<usize>,
}

impl Perlin {
    #[verifier::type_invariant]
    closed spec fn wf(self) -> bool {
        &&& self.ranvec.len() == POINT_COUNT
        &&& self.perm_x.len() == POINT_COUNT
        &&& self.perm_y.len() == POINT_COUNT
        &&& self.perm_z.len() == POINT_COUNT
        &&& is_permutation(self.perm_x@)
        &&& is_permutation(self.perm_y@)
        &&& is_permutation(self.perm_z@)
    }

    /// The gradients, by index.
    pub closed spec fn gradients(self) -> Seq<Vec3> {
        self.ranvec@
    }

    /// The permutation of the x coordinates.
    pub closed spec fn table_x(self) -> Seq<usize> {
        self.perm_x@
    }

    /// The permutation of the y coordinates.
    pub closed spec fn table_y(self) -> Seq<usize> {
        self.perm_y@
    }

    /// The permutation of the z coordinates.
    pub closed spec fn table_z(self) -> Seq<usize> {
        self.perm_z@
    }

    /// The index of the gradient at the lattice point `(i, j, k)`: the three
    /// permuted coordinates, combined bit by bit.
    pub open spec fn hashed(self, i: int, j: int, k: int) -> usize {
        self.table_x()[folded(i)] ^ self.table_y()[folded(j)] ^ self.table_z()[folded(k)]
    }

    /// The gradients at the eight corners of the lattice cell at `(i, j, k)`,
    /// the x offset changing slowest and the z offset fastest.
    pub open spec fn cell(self, i: int, j: int, k: int) -> Seq<Vec3> {
        seq![
            self.gradients()[self.hashed(i, j, k) as int],
            self.gradients()[self.hashed(i, j, k + 1) as int],
            self.gradients()[self.hashed(i, j + 1, k) as int],
            self.gradients()[self.hashed(i, j + 1, k + 1) as int],
            self.gradients()[self.hashed(i + 1, j, k) as int],
            self.gradients()[self.hashed(i + 1, j, k + 1) as int],
            self.gradients()[self.hashed(i + 1, j + 1, k) as int],
            self.gradients()[self.hashed(i + 1, j + 1, k + 1) as int],
        ]
    }

    /// The lattice over the given gradients, with three permutations drawn at
    /// random, or `None` where the gradients are not `POINT_COUNT` many.
    pub fn new(ranvec: Vec<Vec3>) -> (p: Option<Perlin>)
        ensures
            p is Some <==> ranvec.len() == POINT_COUNT,
            p is Some ==> p->0.gradients() == ranvec@,
    {
        if ranvec.len() != POINT_COUNT {
            return None;
        }
        Some(
            Perlin {
                ranvec,
                perm_x: Perlin::perlin_generate_perm(),
                perm_y: Perlin::perlin_generate_perm(),
                perm_z: Perlin::perlin_generate_perm(),
            },
        )
    }

    /// The permutation of the x coordinates.
    pub fn perm_x(&self) -> (p: &Vec<usize>)
        ensures
            p@ == self.table_x(),
            p.len() == POINT_COUNT,
            is_permutation(p@),
    {
        proof {
            use_type_invariant(self);
        }
        &self.perm_x
    }

    /// The permutation of the y coordinates.
    pub fn perm_y(&self) -> (p: &Vec<usize>)
        ensures
            p@ == self.table_y(),
            p.len() == POINT_COUNT,
            is_permutation(p@),
    {
        proof {
            use_type_invariant(self);
        }
        &self.perm_y
    }

    /// The permutation of the z coordinates.
    pub fn perm_z(&self) -> (p: &Vec<usize>)
        ensures
            p@ == self.table_z(),
            p.len() == POINT_COUNT,
            is_permutation(p@),
    {
        proof {
            use_type_invariant(self);
        }
        &self.perm_z
    }

    /// Shuffles the first `n` entries of `p`: from the last down to the
    /// second, each is exchanged with an entry before it, drawn at random. So
    /// the entries stay the same but for their order, and the last of them is
    /// one that stood before it.
    pub fn permute(p: &mut Vec<usize>, n: usize)
        requires
            n <= old(p).len(),
        ensures
            final(p).len() == old(p).len(),
            final(p)@.to_multiset() == old(p)@.to_multiset(),
            is_permutation(old(p)@) ==> is_permutation(final(p)@),
            forall|i: int| n <= i < old(p).len() ==> final(p)[i] == old(p)[i],
            n >= 2 ==> exists|j: int| 0 <= j < n - 1 && final(p)[n - 1] == old(p)[j],
    {
        if n < 2 {
            return ;
        }
        let mut i: usize = n - 1;
        while i > 0
            invariant
                i < n <= p.len(),
                p.len() == old(p).len(),
                p@.to_multiset() == old(p)@.to_multiset(),
                is_permutation(old(p)@) ==> is_permutation(p@),
                forall|k: int| n <= k < p.len() ==> p[k] == old(p)[k],
                i == n - 1 ==> p@ == old(p)@,
                i < n - 1 ==> exists|j: int| 0 <= j < n - 1 && p[n - 1] == old(p)[j],
            decreases i,
        {
            let target: usize = random_below(i);
            let tmp: usize = p[i];
            let other: usize = p[target];
            let ghost before = p@;
            p.set(i, other);
            p.set(target, tmp);
            proof {
                broadcast use vstd::multiset::group_multiset_axioms;

                let half = before.update(i as int, other);
                assert(p@ =~= half.update(target as int, tmp));
                vstd::seq_lib::to_multiset_update(before, i as int, other);
                vstd::seq_lib::to_multiset_update(half, target as int, tmp);
                vstd::seq_lib::to_multiset_contains(before, tmp);
                assert(before.contains(before[i as int]));
                assert(half[target as int] == other);
                assert(p@.to_multiset() =~= before.to_multiset());
                if i == n - 1 {
                    assert(p[n - 1] == old(p)[target as int]);
                }
            }
            i = i - 1;
        }
    }

    /// A random permutation of the indices.
    pub fn perlin_generate_perm() -> (p: Vec<usize>)
        ensures
            p.len() == POINT_COUNT,
            is_permutation(p@),
    {
        let mut p: Vec<usize> = Vec::new();
        let mut i: usize = 0;
        while i < POINT_COUNT
            invariant
                i <= POINT_COUNT,
                p.len() == i,
                forall|k: int| 0 <= k < i ==> p[k] == k,
            decreases POINT_COUNT - i,
        {
            p.push(i);
            i = i + 1;
        }
        Perlin::permute(&mut p, POINT_COUNT);
        p
    }

    /// A lattice coordinate plus an offset of 0 or 1, folded into the range of
    /// the permutations.
    fn fold(i: i32, d: u8) -> (r: usize)
        requires
            d <= 1,
        ensures
            r == folded(i + d),
            r < POINT_COUNT,
    {
        let shifted: u64 = ((i as i64) + 0x8000_0000) as u64;
        ((shifted + (d as u64)) % 256) as usize
    }

    /// The index of the gradient at the lattice point `(i + di, j + dj, k + dk)`.
    fn hash(&self, i: i32, di: u8, j: i32, dj: u8, k: i32, dk: u8) -> (h: usize)
        requires
            di <= 1,
            dj <= 1,
            dk <= 1,
        ensures
            h == self.hashed(i + di, j + dj, k + dk),
            h < POINT_COUNT,
    {
        proof {
            use_type_invariant(self);
        }
        let a: usize = self.perm_x[Perlin::fold(i, di)];
        let b: usize = self.perm_y[Perlin::fold(j, dj)];
        let c: usize = self.perm_z[Perlin::fold(k, dk)];
        assert(a ^ b ^ c < 256) by (bit_vector)
            requires
                a < 256,
                b < 256,
                c < 256,
        ;
        a ^ b ^ c
    }

    /// The gradients at the eight corners of the lattice cell at `(i, j, k)`,
    /// in the order of [`Perlin::cell`].
    pub fn lattice(&self, i: i32, j: i32, k: i32) -> (c: Vec<Vec3>)
        ensures
            c@ == self.cell(i as int, j as int, k as int),
    {
        proof {
            use_type_invariant(self);
        }
        let mut c: Vec<Vec3> = Vec::new();
        c.push(self.ranvec[self.hash(i, 0, j, 0, k, 0)]);
        c.push(self.ranvec[self.hash(i, 0, j, 0, k, 1)]);
        c.push(self.ranvec[self.hash(i, 0, j, 1, k, 0)]);
        c.push(self.ranvec[self.hash(i, 0, j, 1, k, 1)]);
        c.push(self.ranvec[self.hash(i, 1, j, 0, k, 0)]);
        c.push(self.ranvec[self.hash(i, 1, j, 0, k, 1)]);
        c.push(self.ranvec[self.hash(i, 1, j, 1, k, 0)]);
        c.push(self.ranvec[self.hash(i, 1, j, 1, k, 1)]);
        assert(c@ =~= self.cell(i as int, j as int, k as int));
        c
    }
}

} // verus!
