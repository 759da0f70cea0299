//! Openings of lifted Merkle trees: the hashes that are sent along, and what they rebuild.

use vstd::arithmetic::power2::{lemma2_to64, pow2};
use vstd::prelude::*;

use super::hasher::MerkleHasherLifted;
use super::merkle::{layer_above, lifted_value, next_layer_s};
use super::prover::{columns_bounded, MerkleDecommitmentLifted, MerkleProverLifted};
use super::zk::{salt_s, salts_for_positions};
use crate::fields::m31::M31;
use crate::fields::prime::P;
use crate::utils::{
    ilog2, is_pow2, lemma_lifted_row, lemma_log_unique, lemma_pow2_bound, lemma_pow2_double,
    lemma_pow2_le, log_of, pow2_usize,
};

verus! {

/// Whether positions increase and stay below `n`.
pub open spec fn increasing(qs: Seq<usize>, n: int) -> bool {
    &&& forall|i: int, j: int| 0 <= i < j < qs.len() ==> #[trigger] qs[i] < #[trigger] qs[j]
    &&& forall|i: int| 0 <= i < qs.len() ==> (#[trigger] qs[i]) < n
}

/// Whether the first position is followed by its sibling.
pub open spec fn paired(qs: Seq<usize>) -> bool {
    qs.len() >= 2 && qs[0] % 2 == 0 && qs[1] == qs[0] + 1
}

/// How many positions at the front share the first parent.
pub open spec fn front(qs: Seq<usize>) -> int {
    if paired(qs) {
        2
    } else {
        1
    }
}

/// The parents of increasing positions.
pub open spec fn parents_s(qs: Seq<usize>) -> Seq<usize>
    decreases qs.len(),
{
    if qs.len() == 0 {
        Seq::empty()
    } else {
        seq![(qs[0] / 2) as usize] + parents_s(qs.skip(front(qs)))
    }
}

/// The place of the sibling.
pub open spec fn sibling(q: usize) -> int {
    if q % 2 == 0 {
        q + 1
    } else {
        q - 1
    }
}

/// The hashes of the siblings that are not among the positions.
pub open spec fn layer_witness_s<H: MerkleHasherLifted>(qs: Seq<usize>, layer: Seq<H::Hash>) -> Seq<
    H::Hash,
>
    decreases qs.len(),
{
    if qs.len() == 0 {
        Seq::empty()
    } else if paired(qs) {
        layer_witness_s::<H>(qs.skip(2), layer)
    } else {
        seq![layer[sibling(qs[0])]] + layer_witness_s::<H>(qs.skip(1), layer)
    }
}

/// The hashes of the parents, from the hashes of the positions and those sent along.
pub open spec fn rebuilt_s<H: MerkleHasherLifted>(
    qs: Seq<usize>,
    hashes: Seq<H::Hash>,
    witness: Seq<H::Hash>,
) -> Seq<H::Hash>
    decreases qs.len(),
{
    if qs.len() == 0 {
        Seq::empty()
    } else if paired(qs) {
        seq![H::children_hash(hashes[0], hashes[1])] + rebuilt_s::<H>(
            qs.skip(2),
            hashes.skip(2),
            witness,
        )
    } else {
        let parent = if qs[0] % 2 == 0 {
            H::children_hash(hashes[0], witness[0])
        } else {
            H::children_hash(witness[0], hashes[0])
        };
        seq![parent] + rebuilt_s::<H>(qs.skip(1), hashes.skip(1), witness.skip(1))
    }
}

/// The number of hashes sent along for a layer.
pub open spec fn witness_size(qs: Seq<usize>) -> nat
    decreases qs.len(),
{
    if qs.len() == 0 {
        0
    } else if paired(qs) {
        witness_size(qs.skip(2))
    } else {
        1 + witness_size(qs.skip(1))
    }
}

/// The hashes of a layer at the given positions.
pub open spec fn hashes_at<H: MerkleHasherLifted>(layer: Seq<H::Hash>, qs: Seq<usize>) -> Seq<
    H::Hash,
> {
    Seq::new(qs.len(), |i: int| layer[qs[i] as int])
}

proof fn lemma_skip_increasing(qs: Seq<usize>, n: int, k: int)
    requires
        increasing(qs, n),
        0 <= k <= qs.len(),
    ensures
        increasing(qs.skip(k), n),
{
    assert forall|i: int, j: int| 0 <= i < j < qs.skip(k).len() implies #[trigger] qs.skip(k)[i]
        < #[trigger] qs.skip(k)[j] by {
        assert(qs[i + k] < qs[j + k]);
    }
    assert forall|i: int| 0 <= i < qs.skip(k).len() implies (#[trigger] qs.skip(k)[i]) < n by {
        assert(qs[i + k] < n);
    }
}

/// The hashes sent along rebuild the next layer.
pub proof fn lemma_rebuilt<H: MerkleHasherLifted>(
    qs: Seq<usize>,
    layer: Seq<H::Hash>,
    rest: Seq<H::Hash>,
)
    requires
        layer.len() % 2 == 0,
        increasing(qs, layer.len() as int),
    ensures
        rebuilt_s::<H>(qs, hashes_at::<H>(layer, qs), layer_witness_s::<H>(qs, layer) + rest)
            == hashes_at::<H>(next_layer_s::<H>(layer), parents_s(qs)),
        layer_witness_s::<H>(qs, layer).len() == witness_size(qs),
    decreases qs.len(),
{
    let next = next_layer_s::<H>(layer);
    let hs = hashes_at::<H>(layer, qs);
    let w = layer_witness_s::<H>(qs, layer) + rest;
    if qs.len() == 0 {
        assert(parents_s(qs).len() == 0);
        assert(hashes_at::<H>(next, parents_s(qs)) =~= Seq::empty());
    } else {
        let k = front(qs);
        lemma_skip_increasing(qs, layer.len() as int, k);
        lemma_rebuilt::<H>(qs.skip(k), layer, rest);
        assert(hs.skip(k) =~= hashes_at::<H>(layer, qs.skip(k)));
        let q = qs[0] as int;
        assert(qs[0] < layer.len());
        assert(parents_s(qs) == seq![(qs[0] / 2) as usize] + parents_s(qs.skip(k)));
        let tail = hashes_at::<H>(next, parents_s(qs.skip(k)));
        assert(hashes_at::<H>(next, parents_s(qs)) =~= seq![next[q / 2]] + tail);
        if paired(qs) {
            assert(hs[0] == layer[q] && hs[1] == layer[q + 1]);
            assert(2 * (q / 2) == q);
            assert(next[q / 2] == H::children_hash(layer[q], layer[q + 1]));
        } else {
            let sub = layer_witness_s::<H>(qs.skip(1), layer);
            assert(w =~= seq![layer[sibling(qs[0])]] + (sub + rest));
            assert(w.skip(1) =~= sub + rest);
            assert(w[0] == layer[sibling(qs[0])]);
            if q % 2 == 0 {
                assert(2 * (q / 2) == q);
                assert(next[q / 2] == H::children_hash(layer[q], layer[q + 1]));
            } else {
                assert(2 * (q / 2) == q - 1);
                assert(next[q / 2] == H::children_hash(layer[q - 1], layer[q]));
            }
        }
    }
}

/// Parents of increasing positions increase.
pub proof fn lemma_parents_increasing(qs: Seq<usize>, n: int)
    requires
        n % 2 == 0,
        increasing(qs, n),
    ensures
        increasing(parents_s(qs), n / 2),
        qs.len() > 0 ==> parents_s(qs).len() > 0 && parents_s(qs)[0] == qs[0] / 2,
    decreases qs.len(),
{
    if qs.len() > 0 {
        let k = front(qs);
        let rest = qs.skip(k);
        lemma_skip_increasing(qs, n, k);
        lemma_parents_increasing(rest, n);
        let p = parents_s(qs);
        let below = parents_s(rest);
        assert(p =~= seq![(qs[0] / 2) as usize] + below);
        assert(qs[0] < n);
        if rest.len() > 0 {
            assert(rest[0] == qs[k]);
            assert(qs[0] < qs[k]);
            if k == 2 {
                assert(qs[1] < qs[2]);
            }
            assert(below[0] == qs[k] / 2);
            assert(qs[0] / 2 < qs[k] / 2);
        }
        assert forall|i: int, j: int| 0 <= i < j < p.len() implies #[trigger] p[i]
            < #[trigger] p[j] by {
            if i == 0 {
                if rest.len() > 0 {
                    assert(below[0] <= below[j - 1]) by {
                        if j - 1 > 0 {
                            assert(below[0] < below[j - 1]);
                        }
                    }
                } else {
                    assert(below.len() == 0);
                }
            } else {
                assert(below[i - 1] < below[j - 1]);
            }
        }
        assert forall|i: int| 0 <= i < p.len() implies (#[trigger] p[i]) < n / 2 by {
            if i > 0 {
                assert(below[i - 1] < n / 2);
            }
        }
    }
}

/// What is sent along for the layers from `level` up to below `height`.
pub open spec fn witness_from<H: MerkleHasherLifted>(
    leaves: Seq<H::Hash>,
    qs: Seq<usize>,
    level: nat,
    height: nat,
) -> Seq<H::Hash>
    decreases height - level,
{
    if level >= height {
        Seq::empty()
    } else {
        layer_witness_s::<H>(qs, layer_above::<H>(leaves, level)) + witness_from::<H>(
            leaves,
            parents_s(qs),
            level + 1,
            height,
        )
    }
}

/// The root that hashes of leaves and hashes sent along lead to.
pub open spec fn root_from<H: MerkleHasherLifted>(
    qs: Seq<usize>,
    hashes: Seq<H::Hash>,
    witness: Seq<H::Hash>,
    steps: nat,
) -> H::Hash
    decreases steps,
{
    if steps == 0 {
        hashes[0]
    } else {
        root_from::<H>(
            parents_s(qs),
            rebuilt_s::<H>(qs, hashes, witness),
            witness.skip(witness_size(qs) as int),
            (steps - 1) as nat,
        )
    }
}

pub proof fn lemma_layer_size<H: MerkleHasherLifted>(leaves: Seq<H::Hash>, height: nat, level: nat)
    requires
        leaves.len() == pow2(height),
        level <= height,
    ensures
        layer_above::<H>(leaves, level).len() == pow2((height - level) as nat),
    decreases level,
{
    if level > 0 {
        lemma_layer_size::<H>(leaves, height, (level - 1) as nat);
        lemma_pow2_double((height - level + 1) as nat);
    }
}

/// An honest opening leads to the root of the tree.
pub proof fn lemma_opening<H: MerkleHasherLifted>(
    leaves: Seq<H::Hash>,
    qs: Seq<usize>,
    level: nat,
    height: nat,
)
    requires
        leaves.len() == pow2(height),
        level <= height,
        qs.len() > 0,
        increasing(qs, layer_above::<H>(leaves, level).len() as int),
    ensures
        root_from::<H>(
            qs,
            hashes_at::<H>(layer_above::<H>(leaves, level), qs),
            witness_from::<H>(leaves, qs, level, height),
            (height - level) as nat,
        ) == layer_above::<H>(leaves, height)[0],
    decreases height - level,
{
    let layer = layer_above::<H>(leaves, level);
    lemma_layer_size::<H>(leaves, height, level);
    if level == height {
        lemma2_to64();
        assert(qs[0] < layer.len());
        assert(qs[0] == 0);
    } else {
        lemma_pow2_double((height - level) as nat);
        let rest = witness_from::<H>(leaves, parents_s(qs), level + 1, height);
        lemma_rebuilt::<H>(qs, layer, rest);
        lemma_parents_increasing(qs, layer.len() as int);
        let w = witness_from::<H>(leaves, qs, level, height);
        assert(w.skip(witness_size(qs) as int) =~= rest);
        lemma_opening::<H>(leaves, parents_s(qs), level + 1, height);
    }
}

/// The positions without repetitions.
pub open spec fn deduped_s(qs: Seq<usize>) -> Seq<usize>
    decreases qs.len(),
{
    if qs.len() == 0 {
        Seq::empty()
    } else if qs.len() >= 2 && qs[qs.len() - 2] == qs.last() {
        deduped_s(qs.drop_last())
    } else {
        deduped_s(qs.drop_last()).push(qs.last())
    }
}

/// Whether positions do not decrease and stay below `n`.
pub open spec fn sorted_below(qs: Seq<usize>, n: int) -> bool {
    &&& forall|i: int, j: int| 0 <= i <= j < qs.len() ==> #[trigger] qs[i] <= #[trigger] qs[j]
    &&& forall|i: int| 0 <= i < qs.len() ==> (#[trigger] qs[i]) < n
}

proof fn lemma_deduped(qs: Seq<usize>, n: int)
    requires
        sorted_below(qs, n),
    ensures
        increasing(deduped_s(qs), n),
        qs.len() > 0 ==> deduped_s(qs).len() > 0 && deduped_s(qs).last() == qs.last(),
    decreases qs.len(),
{
    if qs.len() > 0 {
        let rest = qs.drop_last();
        assert(sorted_below(rest, n)) by {
            assert forall|i: int, j: int| 0 <= i <= j < rest.len() implies #[trigger] rest[i]
                <= #[trigger] rest[j] by {
                assert(qs[i] <= qs[j]);
            }
            assert forall|i: int| 0 <= i < rest.len() implies (#[trigger] rest[i]) < n by {
                assert(qs[i] < n);
            }
        }
        lemma_deduped(rest, n);
        let d = deduped_s(rest);
        assert(qs.last() < n) by {
            assert(qs[qs.len() - 1] < n);
        }
        if !(qs.len() >= 2 && qs[qs.len() - 2] == qs.last()) {
            let p = d.push(qs.last());
            assert forall|i: int, j: int| 0 <= i < j < p.len() implies #[trigger] p[i]
                < #[trigger] p[j] by {
                if j == d.len() {
                    assert(rest.len() > 0) by {
                        if rest.len() == 0 {
                            assert(d.len() == 0);
                        }
                    }
                    assert(rest.last() == qs[qs.len() - 2]);
                    assert(qs[qs.len() - 2] <= qs[qs.len() - 1]);
                    if i < d.len() - 1 {
                        assert(d[i] < d[d.len() - 1]);
                    }
                } else {
                    assert(d[i] < d[j]);
                }
            }
            assert forall|i: int| 0 <= i < p.len() implies (#[trigger] p[i]) < n by {
                if i < d.len() {
                    assert(d[i] < n);
                }
            }
        }
    }
}

fn dedup(queries: &[usize], Ghost(n): Ghost<int>) -> (r: Vec<usize>)
    requires
        sorted_below(queries@, n),
    ensures
        r@ == deduped_s(queries@),
        increasing(r@, n),
{
    let len: usize = queries.len();
    let mut r: Vec<usize> = Vec::new();
    assert(queries@.take(0).len() == 0);
    for i in 0..len
        invariant
            len == queries.len(),
            r@ == deduped_s(queries@.take(i as int)),
    {
        let ghost part = queries@.take(i + 1);
        assert(part.drop_last() =~= queries@.take(i as int));
        assert(part.last() == queries@[i as int]);
        if i == 0 || queries[i - 1] != queries[i] {
            assert(i > 0 ==> part[part.len() - 2] == queries@[i - 1]);
            r.push(queries[i]);
        } else {
            assert(part[part.len() - 2] == queries@[i - 1]);
        }
    }
    assert(queries@.take(len as int) =~= queries@);
    proof {
        lemma_deduped(queries@, n);
    }
    r
}

/// Appends the hashes sent along for one layer, and returns the parents.
fn open_layer<H: MerkleHasherLifted>(
    qs: &Vec<usize>,
    layer: &Vec<H::Hash>,
    witness: &mut Vec<H::Hash>,
) -> (r: Vec<usize>)
    requires
        layer.len() % 2 == 0,
        increasing(qs@, layer.len() as int),
    ensures
        r@ == parents_s(qs@),
        final(witness)@ == old(witness)@ + layer_witness_s::<H>(qs@, layer@),
{
    let n: usize = qs.len();
    let mut parents: Vec<usize> = Vec::new();
    let mut i: usize = 0;
    let ghost before = witness@;
    let ghost whole = layer_witness_s::<H>(qs@, layer@);
    assert(qs@.skip(0) =~= qs@);
    assert(parents@ + parents_s(qs@.skip(0)) =~= parents_s(qs@));
    assert(witness@ + layer_witness_s::<H>(qs@.skip(0), layer@) =~= before + whole);
    while i < n
        invariant
            i <= n,
            n == qs.len(),
            layer.len() % 2 == 0,
            increasing(qs@, layer.len() as int),
            parents@ + parents_s(qs@.skip(i as int)) == parents_s(qs@),
            whole == layer_witness_s::<H>(qs@, layer@),
            witness@ + layer_witness_s::<H>(qs@.skip(i as int), layer@) == before + whole,
        decreases n - i,
    {
        let ghost rest = qs@.skip(i as int);
        let q: usize = qs[i];
        assert(qs@[i as int] < layer.len());
        assert(rest[0] == q);
        let ghost p0 = parents@;
        let ghost w0 = witness@;
        parents.push(q / 2);
        if q % 2 == 0 && i + 1 < n && qs[i + 1] == q + 1 {
            proof {
                assert(rest[1] == qs@[i + 1]);
                assert(paired(rest));
                assert(rest.skip(2) =~= qs@.skip(i + 2));
                assert(parents_s(rest) == seq![(q / 2) as usize] + parents_s(rest.skip(2)));
                assert(parents@ + parents_s(qs@.skip(i + 2)) =~= p0 + parents_s(rest));
            }
            i = i + 2;
        } else {
            proof {
                if rest.len() >= 2 {
                    assert(rest[1] == qs@[i + 1]);
                }
                assert(!paired(rest));
                assert(rest.skip(1) =~= qs@.skip(i + 1));
                assert(parents_s(rest) == seq![(q / 2) as usize] + parents_s(rest.skip(1)));
                assert(parents@ + parents_s(qs@.skip(i + 1)) =~= p0 + parents_s(rest));
            }
            let at: usize = if q % 2 == 0 {
                q + 1
            } else {
                q - 1
            };
            witness.push(layer[at]);
            proof {
                assert(witness@ + layer_witness_s::<H>(qs@.skip(i + 1), layer@) =~= w0
                    + layer_witness_s::<H>(rest, layer@));
            }
            i = i + 1;
        }
    }
    proof {
        let end = qs@.skip(i as int);
        assert(end.len() == 0);
        assert(parents_s(end).len() == 0);
        assert(parents@ + parents_s(end) =~= parents@);
        assert(witness@ + layer_witness_s::<H>(end, layer@) =~= witness@);
    }
    parents
}

/// The values of a column at the given rows of the tree.
fn column_values(column: &Vec<M31>, queries: &[usize], log_size: u32) -> (r: Vec<M31>)
    requires
        log_size <= 30,
        is_pow2(column@.len()),
        1 <= log_of(column@.len()) <= log_size,
        sorted_below(queries@, pow2(log_size as nat) as int),
    ensures
        r@ == Seq::new(
            queries@.len(),
            |q: int| lifted_value(column@, queries@[q] as int, log_size as nat),
        ),
{
    let ghost log = log_of(column@.len());
    proof {
        lemma_pow2_bound(log);
        lemma_pow2_le(1, log);
        lemma2_to64();
    }
    let column_log: u32 = ilog2(column.len());
    proof {
        lemma_log_unique(column_log as nat, log);
        lemma_pow2_le((log_size - column_log) as nat, 30);
        vstd::arithmetic::power2::lemma_pow2_pos((log_size - column_log) as nat);
    }
    let step: usize = 2 * pow2_usize(log_size - column_log);
    let n: usize = queries.len();
    let mut r: Vec<M31> = Vec::with_capacity(n);
    for q in 0..n
        invariant
            n == queries.len(),
            log_size <= 30,
            column_log == log_of(column@.len()),
            column@.len() == pow2(column_log as nat),
            1 <= column_log <= log_size,
            step == 2 * pow2((log_size - column_log) as nat),
            step > 0,
            sorted_below(queries@, pow2(log_size as nat) as int),
            r.len() == q,
            forall|i: int|
                0 <= i < q ==> #[trigger] r@[i] == lifted_value(
                    column@,
                    queries@[i] as int,
                    log_size as nat,
                ),
    {
        let pos: usize = queries[q];
        proof {
            assert(queries@[q as int] < pow2(log_size as nat));
            lemma_lifted_row(pos as int, log_size as nat, column_log as nat);
            lemma_pow2_bound(column_log as nat);
        }
        r.push(column[2 * (pos / step) + pos % 2]);
    }
    assert(r@ =~= Seq::new(
        queries@.len(),
        |q: int| lifted_value(column@, queries@[q] as int, log_size as nat),
    ));
    r
}

impl<H: MerkleHasherLifted> MerkleProverLifted<H> {
    /// Opens the given rows: the values of every column there, and the hashes and salts that a
    /// verifier needs beside them.
    pub fn decommit(&self, queries: &[usize], columns: &Vec<&Vec<M31>>) -> (r: (
        Vec<Vec<M31>>,
        MerkleDecommitmentLifted<H>,
    ))
        requires
            self.wf(),
            columns_bounded(columns@, self.height()),
            sorted_below(queries@, self.leaves().len() as int),
        ensures
            r.0.len() == columns.len(),
            forall|c: int|
                0 <= c < columns.len() ==> (#[trigger] r.0@[c])@ == Seq::new(
                    queries@.len(),
                    |q: int| lifted_value(columns@[c]@, queries@[q] as int, self.height()),
                ),
            r.1.hash_witness@ == witness_from::<H>(
                self.leaves(),
                deduped_s(queries@),
                0,
                self.height(),
            ),
            r.1.salts@ == match self.salt_seed {
                Some(seed) => Seq::new(
                    deduped_s(queries@).len(),
                    |k: int| salt_s::<H>(seed, deduped_s(queries@)[k] as int),
                ),
                None => Seq::empty(),
            },
    {
        let ghost leaves = self.leaves();
        let height: u32 = (self.layers.len() - 1) as u32;
        let ghost h = height as nat;
        let ghost total = leaves.len() as int;
        let n_columns: usize = columns.len();
        let mut values: Vec<Vec<M31>> = Vec::with_capacity(n_columns);
        for c in 0..n_columns
            invariant
                n_columns == columns.len(),
                height <= 30,
                h == height,
                columns_bounded(columns@, h),
                sorted_below(queries@, pow2(h) as int),
                values.len() == c,
                forall|i: int|
                    0 <= i < c ==> (#[trigger] values@[i])@ == Seq::new(
                        queries@.len(),
                        |q: int| lifted_value(columns@[i]@, queries@[q] as int, h),
                    ),
        {
            assert(is_pow2(columns@[c as int]@.len()));
            values.push(column_values(columns[c], queries, height));
        }
        let deduped = dedup(queries, Ghost(total));
        let salts: Vec<H::Hash> = match &self.salt_seed {
            Some(seed) => {
                proof {
                    lemma_pow2_le(h, 30);
                    lemma2_to64();
                    assert forall|k: int| 0 <= k < deduped.len() implies #[trigger] deduped@[k]
                        < P by {
                        assert(deduped@[k] < total);
                    }
                }
                salts_for_positions::<H>(seed, &deduped)
            },
            None => Vec::new(),
        };
        let ghost d = deduped@;
        proof {
            match self.salt_seed {
                Some(seed) => {
                    assert(salts@ =~= Seq::new(d.len(), |k: int| salt_s::<H>(seed, d[k] as int)));
                },
                None => {
                    assert(salts@ =~= Seq::empty());
                },
            }
        }
        let mut witness: Vec<H::Hash> = Vec::new();
        let mut qs: Vec<usize> = deduped;
        let mut level: u32 = 0;
        proof {
            assert(witness@ + witness_from::<H>(leaves, d, 0, h) =~= witness_from::<H>(
                leaves,
                d,
                0,
                h,
            ));
            lemma_layer_size::<H>(leaves, h, 0);
        }
        while level < height
            invariant
                level <= height,
                height <= 30,
                h == height,
                self.layers@.len() == h + 1,
                self.over(leaves, h),
                leaves.len() == pow2(h),
                layer_above::<H>(leaves, level as nat).len() == pow2((h - level) as nat),
                increasing(qs@, layer_above::<H>(leaves, level as nat).len() as int),
                witness@ + witness_from::<H>(leaves, qs@, level as nat, h)
                    == witness_from::<H>(leaves, d, 0, h),
            decreases height - level,
        {
            let at: usize = (height - level) as usize;
            proof {
                assert(self.layers@[at as int]@ == layer_above::<H>(leaves, level as nat));
                lemma_pow2_double((h - level) as nat);
            }
            let ghost w0 = witness@;
            let ghost q0 = qs@;
            qs = open_layer::<H>(&qs, &self.layers[at], &mut witness);
            proof {
                lemma_parents_increasing(q0, layer_above::<H>(leaves, level as nat).len() as int);
                lemma_layer_size::<H>(leaves, h, (level + 1) as nat);
                assert(witness@ + witness_from::<H>(leaves, qs@, (level + 1) as nat, h) =~= w0
                    + witness_from::<H>(leaves, q0, level as nat, h));
            }
            level = level + 1;
        }
        proof {
            assert(witness@ + witness_from::<H>(leaves, qs@, level as nat, h) =~= witness@);
        }
        (values, MerkleDecommitmentLifted { hash_witness: witness, salts })
    }
}

} // verus!
