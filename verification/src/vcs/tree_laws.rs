//! A tree is made of its two halves.

use vstd::arithmetic::power2::pow2;
use vstd::prelude::*;

use super::hasher::MerkleHasherLifted;
use super::merkle::{layer_above, next_layer_s};
use super::opening::lemma_layer_size;
use crate::utils::lemma_pow2_double;

verus! {

proof fn lemma_layers_of_halves<H: MerkleHasherLifted>(
    left: Seq<H::Hash>,
    right: Seq<H::Hash>,
    height: nat,
    k: nat,
)
    requires
        left.len() == pow2(height),
        right.len() == pow2(height),
        k <= height,
    ensures
        layer_above::<H>(left + right, k) == layer_above::<H>(left, k) + layer_above::<H>(right, k),
    decreases k,
{
    if k > 0 {
        let j = (k - 1) as nat;
        lemma_layers_of_halves::<H>(left, right, height, j);
        lemma_layer_size::<H>(left, height, j);
        lemma_layer_size::<H>(right, height, j);
        lemma_pow2_double((height - j) as nat);
        let (a, b) = (layer_above::<H>(left, j), layer_above::<H>(right, j));
        assert(next_layer_s::<H>(a + b) =~= next_layer_s::<H>(a) + next_layer_s::<H>(b));
    }
}

/// The root of a tree is the node over the roots of its two halves, the one over the first leaves
/// on the left. The root over a single leaf is the leaf.
pub proof fn lemma_root_of_halves<H: MerkleHasherLifted>(
    left: Seq<H::Hash>,
    right: Seq<H::Hash>,
    height: nat,
)
    requires
        left.len() == pow2(height),
        right.len() == pow2(height),
    ensures
        layer_above::<H>(left + right, height + 1) == seq![
            H::children_hash(
                layer_above::<H>(left, height)[0],
                layer_above::<H>(right, height)[0],
            ),
        ],
        layer_above::<H>(left, 0) == left,
{
    lemma_layers_of_halves::<H>(left, right, height, height);
    lemma_layer_size::<H>(left, height, height);
    lemma_layer_size::<H>(right, height, height);
    vstd::arithmetic::power2::lemma2_to64();
    let (a, b) = (layer_above::<H>(left, height), layer_above::<H>(right, height));
    assert(layer_above::<H>(left + right, height + 1) == next_layer_s::<H>(a + b));
    assert(next_layer_s::<H>(a + b) =~= seq![H::children_hash(a[0], b[0])]);
}

} // verus!
