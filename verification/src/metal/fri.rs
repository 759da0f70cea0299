//! Folds in device passes. Row `i` of a fold uses the coordinate of the point of the coset at the
//! bit-reversed place.

use vstd::arithmetic::power2::{lemma2_to64, pow2};
use vstd::prelude::*;

use crate::circle::Coset;
use crate::fields::m31::M31;
use crate::fields::qm31::QM31;
use crate::fields::Field;
use crate::fri::{
    all_nonzero, doubled_coset, fold_layer, fold_layers, fold_line, fold_values, foldable,
};
use crate::line::{LineDomain, LineEvaluation};
use crate::metal::blake2s::{build_packed_tree_metal, is_large_layer, is_packed_leaves};
use crate::metal::twiddles::point_by_doubling;
use crate::secure_column::SecureColumnByCoords;
use crate::utils::{
    bit_rev, bit_reverse_index, lemma_bit_rev_range, lemma_pow2_bound, lemma_pow2_double,
    lemma_pow2_le, pow2_usize,
};
use crate::vcs::blake2s::{Blake2sHash, Blake2sMerkleHasherGeneric};
use crate::vcs::merkle::layer_above;

verus! {

/// The least logarithmic size of a fold's result in passes.
pub const MIN_METAL_FOLD_LOG_SIZE: u32 = 16;

/// The parameters of a fold.
#[derive(Clone, Copy, Debug, PartialEq, Eq)]
pub struct FoldParams {
    pub initial_x: u32,
    pub initial_y: u32,
    pub step_x: u32,
    pub step_y: u32,
    /// The logarithm of the result's length.
    pub half_log: u32,
    /// Whether the second coordinate folds, as on a circle domain.
    pub coord_is_y: u32,
    /// The coordinates of the challenge, padded with zeros.
    pub alpha: [u32; 8],
}

pub open spec fn is_fold_params(
    p: FoldParams,
    coset: Coset,
    half_log: u32,
    coord_is_y: bool,
    alpha: QM31,
) -> bool {
    &&& p.initial_x == coset.initial.x.0
    &&& p.initial_y == coset.initial.y.0
    &&& p.step_x == coset.step.x.0
    &&& p.step_y == coset.step.y.0
    &&& p.half_log == half_log
    &&& p.coord_is_y == if coord_is_y {
        1u32
    } else {
        0
    }
    &&& p.alpha@ == seq![alpha.0.0.0, alpha.0.1.0, alpha.1.0.0, alpha.1.1.0, 0, 0, 0, 0]
}

pub fn fold_params(coset: &Coset, half_log: u32, coord_is_y: bool, alpha: QM31) -> (r: FoldParams)
    ensures
        is_fold_params(r, *coset, half_log, coord_is_y, alpha),
{
    let words: [u32; 8] = [alpha.0.0.0, alpha.0.1.0, alpha.1.0.0, alpha.1.1.0, 0, 0, 0, 0];
    assert(words@ =~= seq![alpha.0.0.0, alpha.0.1.0, alpha.1.0.0, alpha.1.1.0, 0, 0, 0, 0]);
    FoldParams {
        initial_x: coset.initial.x.0,
        initial_y: coset.initial.y.0,
        step_x: coset.step.x.0,
        step_y: coset.step.y.0,
        half_log,
        coord_is_y: if coord_is_y {
            1
        } else {
            0
        },
        alpha: words,
    }
}

/// The coordinates by which the rows of a fold of length `2^half_log` fold.
pub open spec fn fold_coordinates(coset: Coset, half_log: nat, coord_is_y: bool) -> Seq<M31> {
    Seq::new(
        pow2(half_log),
        |i: int|
            {
                let p = coset.at_s(bit_rev(i, half_log));
                if coord_is_y {
                    p.y
                } else {
                    p.x
                }
            },
    )
}

/// Folds a long column; nothing for a short one.
pub fn fold_metal(
    values: &SecureColumnByCoords,
    coset: Coset,
    half_log: u32,
    coord_is_y: bool,
    alpha: QM31,
) -> (r: Option<SecureColumnByCoords>)
    requires
        values.wf(),
        half_log <= 30,
        values.len_s() == 2 * pow2(half_log as nat),
        coset.wf(),
        all_nonzero(fold_coordinates(coset, half_log as nat, coord_is_y)),
    ensures
        r is Some <==> half_log >= 16,
        match r {
            Some(folded) => folded.wf() && folded.elements() == fold_layer(
                values.elements(),
                fold_coordinates(coset, half_log as nat, coord_is_y),
                alpha,
            ),
            None => true,
        },
{
    let half_n = pow2_usize(half_log);
    proof {
        lemma2_to64();
        if half_log < 16 {
            vstd::arithmetic::power2::lemma_pow2_strictly_increases(half_log as nat, 16);
        } else {
            lemma_pow2_le(16, half_log as nat);
        }
        lemma_pow2_bound(half_log as nat);
    }
    if half_n < pow2_usize(MIN_METAL_FOLD_LOG_SIZE) {
        return None;
    }
    let ghost target = fold_coordinates(coset, half_log as nat, coord_is_y);
    let mut ts: Vec<M31> = Vec::new();
    let mut i: usize = 0;
    while i < half_n
        invariant
            i <= half_n == pow2(half_log as nat),
            half_n <= 0x8000_0000,
            half_log <= 30,
            coset.wf(),
            target == fold_coordinates(coset, half_log as nat, coord_is_y),
            ts@ == target.take(i as int),
        decreases half_n - i,
    {
        let j = bit_reverse_index(i, half_log);
        proof {
            lemma_bit_rev_range(i as int, half_log as nat);
        }
        let p = point_by_doubling(coset, j as u32);
        ts.push(
            if coord_is_y {
                p.y
            } else {
                p.x
            },
        );
        i += 1;
        assert(ts@ =~= target.take(i as int));
    }
    assert(ts@ =~= target);
    Some(fold_values(values, ts, alpha))
}

/// Folds a long line evaluation once for each challenge, and builds the layers of the packed tree
/// over the result where it has leaves enough. Nothing without challenges, or where the result is
/// short.
pub fn fold_line_chain_and_packed_tree_metal<const IS_M31_OUTPUT: bool>(
    values: SecureColumnByCoords,
    coset: Coset,
    alphas: &[QM31],
) -> (r: Option<(SecureColumnByCoords, Option<Vec<Vec<Blake2sHash>>>)>)
    requires
        values.wf(),
        coset.wf(),
        coset.log_size <= 31,
        values.len_s() == coset.size_s(),
        alphas@.len() <= coset.log_size,
        foldable(coset, alphas@.len()),
    ensures
        r is Some <==> alphas@.len() > 0 && coset.log_size - alphas@.len() >= 16,
        match r {
            Some((folded, tree)) => {
                &&& folded.wf()
                &&& folded.elements() == fold_layers(coset, values.elements(), alphas@)
                &&& tree is Some <==> coset.log_size - alphas@.len() >= 19
                &&& match tree {
                    Some(layers) => {
                        &&& layers@.len() >= 1
                        &&& is_packed_leaves::<IS_M31_OUTPUT>(
                            &folded.columns,
                            (coset.log_size - alphas@.len() - 2) as nat,
                            layers@[0]@,
                        )
                        &&& forall|k: int|
                            0 <= k < layers@.len() ==> (#[trigger] layers@[k])@ == layer_above::<
                                Blake2sMerkleHasherGeneric<IS_M31_OUTPUT>,
                            >(layers@[0]@, k as nat)
                        &&& !is_large_layer(layers@[0]@.len(), layers@.len())
                    },
                    None => true,
                }
            },
            None => true,
        },
{
    let n = alphas.len();
    if n == 0 || coset.log_size < n as u32 + MIN_METAL_FOLD_LOG_SIZE {
        return None;
    }
    let eval = LineEvaluation { domain: LineDomain { coset }, values };
    let folded = fold_line(&eval, alphas);
    let final_log = coset.log_size - n as u32;
    proof {
        lemma2_to64();
        assert(folded.values.len_s() == pow2(final_log as nat)) by {
            lemma_doubled_log(coset, n as nat);
        }
        lemma_pow2_double(final_log as nat);
        lemma_pow2_double((final_log - 1) as nat);
        let m = (final_log - 2) as nat;
        if m < 17 {
            vstd::arithmetic::power2::lemma_pow2_strictly_increases(m, 17);
        } else {
            lemma_pow2_le(17, m);
        }
        assert forall|k: int| 0 <= k < 4 implies (#[trigger] folded.values.columns@[k])@.len() == 4
            * pow2(m) by {}
    }
    let tree = build_packed_tree_metal::<IS_M31_OUTPUT>(&folded.values.columns, final_log - 2);
    Some((folded.values, tree))
}

proof fn lemma_doubled_log(coset: Coset, k: nat)
    requires
        k <= coset.log_size,
        coset.log_size <= 31,
    ensures
        doubled_coset(coset, k).log_size == coset.log_size - k,
    decreases k,
{
    if k > 0 {
        lemma_doubled_log(coset, (k - 1) as nat);
    }
}

} // verus!
