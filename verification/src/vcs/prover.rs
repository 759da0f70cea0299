//! Commitment to columns by a lifted Merkle tree, and openings of it.

use vstd::arithmetic::power2::{lemma2_to64, pow2};
use vstd::prelude::*;

use super::hasher::MerkleHasherLifted;
use super::merkle::{
    build_layers, build_leaves, columns_fit, layer_above, leaves_s, lemma_full_front,
};
use super::zk::{fold_salts, salted_s, SaltSeed};
use crate::fields::m31::M31;
use crate::utils::{
    is_pow2, lemma_floor_log, lemma_log_of, lemma_pow2_double, lemma_pow2_le, log_of, pow2_usize,
};

verus! {

/// Whether every column has a power of two of at least two rows, at most those of the tree.
pub open spec fn columns_bounded(columns: Seq<&Vec<M31>>, lifting_log_size: nat) -> bool {
    forall|k: int|
        0 <= k < columns.len() ==> is_pow2((#[trigger] columns[k])@.len()) && 1 <= log_of(
            columns[k]@.len(),
        ) <= lifting_log_size
}

/// The columns of `2^log` rows, in order.
pub open spec fn of_size<'a>(columns: Seq<&'a Vec<M31>>, log: nat) -> Seq<&'a Vec<M31>> {
    columns.filter(|c: &'a Vec<M31>| c@.len() == pow2(log))
}

/// The columns of less than `2^n` rows, the short ones first, those of one size in order.
pub open spec fn by_size<'a>(columns: Seq<&'a Vec<M31>>, n: nat) -> Seq<&'a Vec<M31>>
    decreases n,
{
    if n == 0 {
        Seq::empty()
    } else {
        by_size(columns, (n - 1) as nat) + of_size(columns, (n - 1) as nat)
    }
}

proof fn lemma_of_size(columns: Seq<&Vec<M31>>, log: nat, k: int)
    requires
        0 <= k < of_size(columns, log).len(),
    ensures
        of_size(columns, log)[k]@.len() == pow2(log),
        columns.contains(of_size(columns, log)[k]),
    decreases columns.len(),
{
    reveal(Seq::filter);
    if columns.len() > 0 {
        let rest = columns.drop_last();
        let sub = of_size(rest, log);
        if k < sub.len() {
            lemma_of_size(rest, log, k);
            let i = choose|i: int| 0 <= i < rest.len() && rest[i] == sub[k];
            assert(columns[i] == sub[k]);
        } else {
            assert(columns[columns.len() - 1] == of_size(columns, log)[k]);
        }
    }
}

proof fn lemma_by_size(columns: Seq<&Vec<M31>>, n: nat, k: int)
    requires
        0 <= k < by_size(columns, n).len(),
    ensures
        by_size(columns, n)[k]@.len() < pow2(n),
        is_pow2(by_size(columns, n)[k]@.len()),
        columns.contains(by_size(columns, n)[k]),
    decreases n,
{
    if n > 0 {
        let low = by_size(columns, (n - 1) as nat);
        lemma_pow2_double(n);
        if k < low.len() {
            lemma_by_size(columns, (n - 1) as nat, k);
        } else {
            lemma_of_size(columns, (n - 1) as nat, k - low.len());
            lemma_log_of(pow2((n - 1) as nat), (n - 1) as nat);
        }
    }
}

proof fn lemma_by_size_ordered(columns: Seq<&Vec<M31>>, n: nat, j: int, k: int)
    requires
        0 <= j <= k < by_size(columns, n).len(),
    ensures
        by_size(columns, n)[j]@.len() <= by_size(columns, n)[k]@.len(),
    decreases n,
{
    if n > 0 {
        let low = by_size(columns, (n - 1) as nat);
        if k < low.len() {
            lemma_by_size_ordered(columns, (n - 1) as nat, j, k);
        } else {
            lemma_of_size(columns, (n - 1) as nat, k - low.len());
            if j < low.len() {
                lemma_by_size(columns, (n - 1) as nat, j);
            } else {
                lemma_of_size(columns, (n - 1) as nat, j - low.len());
            }
        }
    }
}

/// The sorted columns can be committed.
pub proof fn lemma_sorted_fit(columns: Seq<&Vec<M31>>, lifting_log_size: nat)
    requires
        columns_bounded(columns, lifting_log_size),
    ensures
        columns_fit(by_size(columns, 32), lifting_log_size),
{
    let sorted = by_size(columns, 32);
    assert forall|k: int| 0 <= k < sorted.len() implies is_pow2((#[trigger] sorted[k])@.len())
        && 1 <= log_of(sorted[k]@.len()) <= lifting_log_size by {
        lemma_by_size(columns, 32, k);
        let i = choose|i: int| 0 <= i < columns.len() && columns[i] == sorted[k];
        assert(columns[i]@.len() == sorted[k]@.len());
    }
    assert forall|j: int, k: int| 0 <= j <= k < sorted.len() implies (
    #[trigger] sorted[j])@.len() <= (#[trigger] sorted[k])@.len() by {
        lemma_by_size_ordered(columns, 32, j, k);
    }
}

/// Sorts columns by size, keeping the order of those of one size.
pub fn sort_columns<'a>(columns: &Vec<&'a Vec<M31>>) -> (r: Vec<&'a Vec<M31>>)
    ensures
        r@ == by_size(columns@, 32),
{
    let n: usize = columns.len();
    let mut r: Vec<&'a Vec<M31>> = Vec::with_capacity(n);
    for log in 0..32u32
        invariant
            n == columns.len(),
            r@ == by_size(columns@, log as nat),
    {
        let size: usize = pow2_usize(log);
        let ghost low = r@;
        proof {
            reveal(Seq::filter);
            assert(of_size(columns@.take(0), log as nat) =~= Seq::empty());
        }
        for i in 0..n
            invariant
                n == columns.len(),
                size == pow2(log as nat),
                r@ == low + of_size(columns@.take(i as int), log as nat),
        {
            let column = columns[i];
            proof {
                reveal(Seq::filter);
                assert(columns@.take(i + 1).drop_last() =~= columns@.take(i as int));
                assert(columns@.take(i + 1).last() == column);
            }
            if column.len() == size {
                let ghost before = r@;
                r.push(column);
                assert(r@ =~= low + of_size(columns@.take(i + 1), log as nat));
            }
        }
        assert(columns@.take(n as int) =~= columns@);
    }
    r
}

/// The leaves that a tree commits to: those of the sorted columns, salted if there is a seed.
pub open spec fn tree_leaves<H: MerkleHasherLifted>(
    columns: Seq<&Vec<M31>>,
    lifting_log_size: nat,
    salt_seed: Option<SaltSeed>,
) -> Seq<H::Hash> {
    let leaves = leaves_s::<H>(by_size(columns, 32), lifting_log_size);
    match salt_seed {
        Some(seed) => salted_s::<H>(leaves, seed),
        None => leaves,
    }
}

/// A committed tree: its layers from the root down to the leaves, and the seed of its salts.
pub struct MerkleProverLifted<H: MerkleHasherLifted> {
    pub layers: Vec<Vec<H::Hash>>,
    pub salt_seed: Option<SaltSeed>,
}

/// An opening: the hashes that are needed beside the opened leaves, layer by layer, and the salts
/// of the opened leaves.
pub struct MerkleDecommitmentLifted<H: MerkleHasherLifted> {
    pub hash_witness: Vec<H::Hash>,
    pub salts: Vec<H::Hash>,
}

/// The number of layers above the leaves of a tree.
pub open spec fn tree_height(columns: Seq<&Vec<M31>>, lifting_log_size: nat) -> nat {
    if columns.len() == 0 {
        0
    } else {
        lifting_log_size
    }
}

impl<H: MerkleHasherLifted> MerkleProverLifted<H> {
    /// The leaves of the tree, with their salts.
    pub open spec fn leaves(self) -> Seq<H::Hash> {
        self.layers@.last()@
    }

    /// The number of layers above the leaves.
    pub open spec fn height(self) -> nat {
        (self.layers@.len() - 1) as nat
    }

    /// Whether the layers are those of a tree.
    pub open spec fn wf(self) -> bool {
        &&& 1 <= self.layers@.len() <= 31
        &&& self.leaves().len() == pow2(self.height())
        &&& self.over(self.leaves(), self.height())
    }

    pub open spec fn root_s(self) -> H::Hash {
        self.layers@[0]@[0]
    }

    /// Whether the layers are those over the given leaves.
    pub open spec fn over(self, leaves: Seq<H::Hash>, height: nat) -> bool {
        &&& self.layers@.len() == height + 1
        &&& forall|k: int|
            0 <= k <= height ==> (#[trigger] self.layers@[k])@ == layer_above::<H>(
                leaves,
                (height - k) as nat,
            )
    }

    /// The tree of the given columns.
    pub open spec fn commits(
        self,
        columns: Seq<&Vec<M31>>,
        lifting_log_size: nat,
        salt_seed: Option<SaltSeed>,
    ) -> bool {
        &&& self.salt_seed == salt_seed
        &&& self.over(
            tree_leaves::<H>(columns, lifting_log_size, salt_seed),
            tree_height(columns, lifting_log_size),
        )
    }

    /// Commits to columns. Without columns the tree is the one leaf of nothing.
    pub fn commit(columns: &Vec<&Vec<M31>>, lifting_log_size: u32, salt_seed: Option<SaltSeed>) -> (r:
        Self)
        requires
            lifting_log_size <= 30,
            columns_bounded(columns@, lifting_log_size as nat),
        ensures
            r.commits(columns@, lifting_log_size as nat, salt_seed),
            r.wf(),
            r.leaves() == tree_leaves::<H>(columns@, lifting_log_size as nat, salt_seed),
    {
        let sorted = sort_columns(columns);
        let height: u32 = if columns.len() == 0 {
            0
        } else {
            lifting_log_size
        };
        proof {
            lemma_sorted_fit(columns@, lifting_log_size as nat);
            lemma_sorted_nonempty(columns@, lifting_log_size as nat);
        }
        let leaves = build_leaves::<H>(&sorted, lifting_log_size);
        proof {
            lemma_pow2_le(lifting_log_size as nat, 30);
            lemma2_to64();
        }
        let leaves = match &salt_seed {
            Some(seed) => fold_salts::<H>(&leaves, seed),
            None => leaves,
        };
        let ghost first = leaves@;
        proof {
            lemma2_to64();
            lemma_full_front(first, height as nat);
            lemma_pow2_double((height + 1) as nat);
            vstd::arithmetic::power2::lemma_pow2_pos(height as nat);
            lemma_floor_log(first.len(), height as nat);
        }
        let built = build_layers::<H>(leaves, height);
        assert forall|k: int| 0 <= k < built.len() implies (#[trigger] built@[k])@ == layer_above::<
            H,
        >(first, k as nat) by {
            if k == 0 {
                assert(built@[0]@ == first);
            }
        }
        let layers = reversed_layers::<H>(built, Ghost(first));
        let r = MerkleProverLifted { layers, salt_seed };
        proof {
            assert(r.layers@[height as int]@ == layer_above::<H>(first, 0));
            lemma2_to64();
        }
        r
    }

    /// The root.
    pub fn root(&self) -> (r: H::Hash)
        requires
            self.wf(),
        ensures
            r == self.root_s(),
    {
        proof {
            assert(self.layers@[0]@ == layer_above::<H>(self.leaves(), self.height()));
            super::opening::lemma_layer_size::<H>(self.leaves(), self.height(), self.height());
            lemma2_to64();
        }
        self.layers[0][0]
    }
}

pub proof fn lemma_sorted_nonempty(columns: Seq<&Vec<M31>>, lifting_log_size: nat)
    requires
        columns_bounded(columns, lifting_log_size),
        lifting_log_size <= 30,
    ensures
        by_size(columns, 32).len() == 0 <==> columns.len() == 0,
{
    if columns.len() > 0 {
        let log = log_of(columns[0]@.len());
        assert(is_pow2(columns[0]@.len()));
        lemma_of_size_contains(columns, log, 0);
        lemma_by_size_len(columns, log, 32);
    } else {
        if by_size(columns, 32).len() > 0 {
            lemma_by_size(columns, 32, 0);
        }
    }
}

/// Nothing sorted is nothing.
pub proof fn lemma_sorted_empty(columns: Seq<&Vec<M31>>)
    requires
        columns.len() == 0,
    ensures
        by_size(columns, 32).len() == 0,
{
    if by_size(columns, 32).len() > 0 {
        lemma_by_size(columns, 32, 0);
    }
}

proof fn lemma_of_size_contains(columns: Seq<&Vec<M31>>, log: nat, i: int)
    requires
        0 <= i < columns.len(),
        columns[i]@.len() == pow2(log),
    ensures
        of_size(columns, log).len() > 0,
    decreases columns.len(),
{
    reveal(Seq::filter);
    if i < columns.len() - 1 {
        lemma_of_size_contains(columns.drop_last(), log, i);
    }
}

proof fn lemma_by_size_len(columns: Seq<&Vec<M31>>, log: nat, n: nat)
    requires
        log < n,
        of_size(columns, log).len() > 0,
    ensures
        by_size(columns, n).len() > 0,
    decreases n,
{
    if log < n - 1 {
        lemma_by_size_len(columns, log, (n - 1) as nat);
    }
}

/// The layers from the root down.
fn reversed_layers<H: MerkleHasherLifted>(
    layers: Vec<Vec<H::Hash>>,
    Ghost(leaves): Ghost<Seq<H::Hash>>,
) -> (r: Vec<Vec<H::Hash>>)
    requires
        layers.len() >= 1,
        forall|k: int|
            0 <= k < layers.len() ==> (#[trigger] layers@[k])@ == layer_above::<H>(
                leaves,
                k as nat,
            ),
    ensures
        r.len() == layers.len(),
        forall|k: int|
            0 <= k < r.len() ==> (#[trigger] r@[k])@ == layer_above::<H>(
                leaves,
                (r.len() - 1 - k) as nat,
            ),
{
    let mut layers = layers;
    let n: usize = layers.len();
    let mut r: Vec<Vec<H::Hash>> = Vec::with_capacity(n);
    for i in 0..n
        invariant
            layers.len() == n - i,
            r.len() == i,
            forall|k: int|
                0 <= k < layers.len() ==> (#[trigger] layers@[k])@ == layer_above::<H>(
                    leaves,
                    k as nat,
                ),
            forall|k: int|
                0 <= k < i ==> (#[trigger] r@[k])@ == layer_above::<H>(
                    leaves,
                    (n - 1 - k) as nat,
                ),
    {
        let ghost all = layers@;
        match layers.pop() {
            Some(layer) => {
                assert(all[n - i - 1]@ == layer_above::<H>(leaves, (n - i - 1) as nat));
                r.push(layer);
            },
            None => {},
        }
    }
    r
}

} // verus!
