//! The parts of a plan make up the whole: every column is absorbed once, every coefficient and
//! every layer has a place of its own, and words that are read back are the elements written.

use vstd::arithmetic::power2::{lemma_pow2_pos, lemma_pow2_unfold, pow2};
use vstd::prelude::*;

use super::blake2s::{absorb_params_s, chunk_count};
use super::numerators::{chunk_columns, coefficient_word, NumeratorBatch};
use super::ood::decoded_s;
use super::twiddles::layer_params_s;
use crate::circle::Coset;
use crate::fields::qm31::QM31;
use crate::pcs::transcript::felt_words;
use crate::pcs::transcript_laws::{lemma_felt_words, lemma_felt_words_len};
use crate::utils::{lemma_pow2_bound, lemma_pow2_le};

verus! {

/// A pass absorbs where the one before it ended, four bytes for each column; the first starts at
/// the start and the last ends with the last column. The first alone starts the states, and the
/// last alone ends them.
pub proof fn lemma_absorbs_all(n_rows: u32, n_cols: nat, is_m31: bool, k: int)
    requires
        0 < n_cols <= u32::MAX / 4,
        0 <= k < chunk_count(n_cols),
    ensures
        ({
            let p = absorb_params_s(n_rows, n_cols, is_m31, k);
            let end = p.byte_count_base + 4 * p.n_cols;
            &&& 0 < p.n_cols
            &&& k == 0 ==> p.byte_count_base == 0
            &&& k + 1 < chunk_count(n_cols) ==> absorb_params_s(
                n_rows,
                n_cols,
                is_m31,
                k + 1,
            ).byte_count_base == end
            &&& k + 1 == chunk_count(n_cols) <==> end == 4 * n_cols
            &&& p.mode % 2 == 1 <==> p.byte_count_base == 0
            &&& p.mode / 2 == 1 <==> end == 4 * n_cols
            &&& p.mode < 4
        }),
{
}

/// Every coefficient stands in one dispatch: that of column `c` in dispatch `c / 16`, among the
/// columns that the dispatch has.
pub proof fn lemma_coefficient_place(batch: NumeratorBatch, c: int, j: int)
    requires
        batch.columns@.len() == batch.coeffs@.len(),
        0 <= c < batch.columns@.len(),
        0 <= j < 4,
    ensures
        c / 16 < batch.dispatches(),
        c % 16 < chunk_columns(batch.columns@.len(), (c / 16) as nat),
        coefficient_word(batch.coeffs@, (c / 16) as nat, 4 * (c % 16) + j)
            == batch.coeffs@[c].coords()[j].0,
{
    let at = 4 * (c % 16) + j;
    assert(at / 4 == c % 16 && at % 4 == j);
    assert((c / 16) * 16 + c % 16 == c);
}

/// The columns that the dispatches have are columns of the batch.
pub proof fn lemma_dispatched_columns(batch: NumeratorBatch, chunk: int, place: int)
    requires
        0 <= chunk < batch.dispatches(),
        0 <= place < chunk_columns(batch.columns@.len(), chunk as nat),
    ensures
        place < 16,
        16 * chunk + place < batch.columns@.len(),
{
}

/// Layer after layer of twiddles, each behind the one before, and the last ends one place before
/// the size of the coset.
pub proof fn lemma_layers_follow(root: Coset, k: int)
    requires
        0 <= k < root.log_size <= 31,
    ensures
        ({
            let p = layer_params_s(root, k);
            let end = p.out_offset + pow2(p.layer_log as nat);
            &&& k == 0 ==> p.out_offset == 0
            &&& k + 1 < root.log_size ==> layer_params_s(root, k + 1).out_offset == end
            &&& k + 1 == root.log_size ==> end == pow2(root.log_size as nat) - 1
        }),
{
    let n = root.log_size as nat;
    let m = (n - k) as nat;
    lemma_pow2_unfold(m);
    lemma_pow2_pos((m - 1) as nat);
    lemma_pow2_bound(n);
    lemma_pow2_le(m, n);
    lemma_pow2_le((m - 1) as nat, n);
    vstd::arithmetic::power2::lemma2_to64();
}

/// Elements that were written word by word are read back.
pub proof fn lemma_decoded(elements: Seq<QM31>)
    ensures
        decoded_s(felt_words(elements)) == elements,
{
    lemma_felt_words_len(elements);
    assert forall|i: int| 0 <= i < elements.len() implies decoded_s(felt_words(elements))[i]
        == elements[i] by {
        lemma_felt_words(elements, i, 0);
        lemma_felt_words(elements, i, 1);
        lemma_felt_words(elements, i, 2);
        lemma_felt_words(elements, i, 3);
        let x = elements[i];
        assert(x.coords()[0] == x.0.0 && x.coords()[1] == x.0.1);
        assert(x.coords()[2] == x.1.0 && x.coords()[3] == x.1.1);
    }
    assert(decoded_s(felt_words(elements)) =~= elements);
}

} // verus!
