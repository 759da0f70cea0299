//! What is opened is what was committed to.

use vstd::arithmetic::power2::pow2;
use vstd::prelude::*;

use super::openings::opens;
use super::tree::{values_of, CommitmentTreeProver};
use crate::fields::m31::M31;
use crate::metal::blake2s::{lemma_leaf_words, lifted_words};
use crate::vcs::blake2s::{blake2s_s, hash_with, output_s, Blake2sMerkleHasherGeneric};
use crate::vcs::hasher::MerkleHasherLifted;
use crate::vcs::merkle::{layer_above, leaves_s};
use crate::vcs::prover::{by_size, MerkleDecommitmentLifted};
use crate::vcs::zk::salt_s;

verus! {

/// The values that are opened in a row, taken in the order in which the columns are sorted, are
/// the words whose digest is the leaf of that row, hashed with its salt if the tree is salted.
pub proof fn lemma_opened_values_make_leaf<const IS_M31_OUTPUT: bool>(
    tree: CommitmentTreeProver<Blake2sMerkleHasherGeneric<IS_M31_OUTPUT>>,
    queries: Seq<usize>,
    values: Seq<Vec<M31>>,
    opening: MerkleDecommitmentLifted<Blake2sMerkleHasherGeneric<IS_M31_OUTPUT>>,
    order: Seq<int>,
    q: int,
)
    requires
        tree.wf(),
        opens(tree, queries, values, opening),
        0 <= q < queries.len(),
        queries[q] < pow2(tree.commitment.height()),
        0 < order.len() == by_size(values_of(tree.polynomials@), 32).len(),
        forall|k: int|
            0 <= k < order.len() ==> 0 <= #[trigger] order[k] < values.len() && by_size(
                values_of(tree.polynomials@),
                32,
            )[k] == values_of(tree.polynomials@)[order[k]],
    ensures
        ({
            let row = queries[q] as int;
            let words = Seq::new(order.len(), |k: int| values[order[k]]@[q].0);
            let leaf = hash_with(output_s(blake2s_s(words), IS_M31_OUTPUT));
            tree.commitment.leaves()[row] == match tree.commitment.salt_seed {
                Some(seed) => Blake2sMerkleHasherGeneric::<IS_M31_OUTPUT>::children_hash(
                    leaf,
                    salt_s::<Blake2sMerkleHasherGeneric<IS_M31_OUTPUT>>(seed, row),
                ),
                None => leaf,
            }
        }),
{
    let row = queries[q] as int;
    let height = tree.commitment.height();
    let columns = values_of(tree.polynomials@);
    let sorted = by_size(columns, 32);
    let words = Seq::new(order.len(), |k: int| values[order[k]]@[q].0);
    let held = lifted_words(sorted, row, height, sorted.len());
    assert forall|k: int| 0 <= k < order.len() implies words[k] == held[k] by {
        let c = order[k];
        assert(sorted[k] == columns[c]);
        assert(values[c]@[q] == crate::vcs::merkle::lifted_value(
            tree.polynomials@[c].evals.values@,
            row,
            height,
        ));
    }
    assert(words =~= held);
    lemma_leaf_words::<IS_M31_OUTPUT>(sorted, height, row);
    let last = tree.commitment.layers@.len() - 1;
    assert(tree.commitment.layers@[last]@ == layer_above::<
        Blake2sMerkleHasherGeneric<IS_M31_OUTPUT>,
    >(
        crate::vcs::prover::tree_leaves::<Blake2sMerkleHasherGeneric<IS_M31_OUTPUT>>(
            columns,
            height,
            tree.commitment.salt_seed,
        ),
        0,
    ));
    assert(leaves_s::<Blake2sMerkleHasherGeneric<IS_M31_OUTPUT>>(sorted, height).len() == pow2(
        height,
    ));
}

} // verus!
