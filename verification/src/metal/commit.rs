//! The commitment to columns in one chain of device passes: interpolation, extension, leaves and
//! layers.

use vstd::arithmetic::power2::{lemma_pow2_pos, pow2};
use vstd::prelude::*;

use crate::fields::m31::M31;
use crate::metal::blake2s::{
    compact_layout, encode_tree, encode_tree_compact, is_large_layer, is_large_tree,
};
use crate::metal::fft::{
    all_committed, fits_both, fused_transform_metal_chained, some_small, MIN_METAL_FFT_LOG_SIZE,
};
use crate::poly::circle_poly::{EvalsOrCoeffs, Poly};
use crate::poly::extension::{column_log_size, committed};
use crate::poly::twiddles::TwiddleTree;
use crate::utils::{
    ilog2, is_pow2, lemma_log_of, lemma_log_unique, lemma_pow2_bound, lemma_pow2_double, log_of,
};
use crate::vcs::blake2s::{Blake2sHash, Blake2sMerkleHasherGeneric};
use crate::vcs::merkle::{hash_pairs, columns_fit, layer_above, leaves_s};
use crate::vcs::prover::{
    by_size, columns_bounded, lemma_sorted_fit, sort_columns, tree_leaves, MerkleProverLifted,
};

verus! {

/// The extended columns.
pub open spec fn extended_values(polys: Seq<Poly>) -> Seq<&'static Vec<M31>> {
    Seq::new(polys.len(), |i: int| &polys[i].evals.values)
}

/// The largest logarithmic size among columns.
pub open spec fn max_log(columns: Seq<EvalsOrCoeffs>) -> nat
    decreases columns.len(),
{
    if columns.len() == 0 {
        0
    } else {
        let rest = max_log(columns.drop_last());
        if columns.last().log_size_s() > rest {
            columns.last().log_size_s()
        } else {
            rest
        }
    }
}

proof fn lemma_max_log(columns: Seq<EvalsOrCoeffs>, i: int)
    requires
        0 <= i < columns.len(),
    ensures
        columns[i].log_size_s() <= max_log(columns),
    decreases columns.len(),
{
    if i < columns.len() - 1 {
        lemma_max_log(columns.drop_last(), i);
    }
}

proof fn lemma_max_attained(columns: Seq<EvalsOrCoeffs>)
    requires
        columns.len() > 0,
    ensures
        exists|i: int| 0 <= i < columns.len() && (#[trigger] columns[i]).log_size_s() == max_log(columns),
    decreases columns.len(),
{
    let rest = columns.drop_last();
    if rest.len() > 0 {
        lemma_max_attained(rest);
        let i = choose|i: int| 0 <= i < rest.len() && (#[trigger] rest[i]).log_size_s() == max_log(rest);
        assert(columns[i] == rest[i]);
    }
    assert(rest.len() == 0 ==> max_log(rest) == 0);
    assert(columns[columns.len() - 1] == columns.last());
}

/// The size of the tree: the one asked for, or that of the largest extension.
pub open spec fn lifting_of(
    columns: Seq<EvalsOrCoeffs>,
    log_blowup: nat,
    lifting_log_size: Option<u32>,
) -> nat {
    match lifting_log_size {
        Some(log) => log as nat,
        None => max_log(columns) + log_blowup,
    }
}

/// Columns that cannot be committed in passes: none at all, one that is small, or one that is
/// larger than the tree.
pub open spec fn declined(
    columns: Seq<EvalsOrCoeffs>,
    log_blowup: nat,
    lifting_log_size: Option<u32>,
) -> bool {
    ||| columns.len() == 0
    ||| some_small(columns)
    ||| lifting_of(columns, log_blowup, lifting_log_size) < max_log(columns) + log_blowup
}

/// The columns fit the tree.
proof fn lemma_extended_bounded(
    columns: Seq<EvalsOrCoeffs>,
    polys: Seq<Poly>,
    log_blowup: nat,
    store: bool,
    lifting: nat,
)
    requires
        polys.len() == columns.len(),
        forall|i: int|
            0 <= i < polys.len() ==> committed(columns[i], log_blowup, store, #[trigger] polys[i]),
        forall|i: int| 0 <= i < columns.len() ==> 0 < (#[trigger] columns[i]).log_size_s(),
        max_log(columns) + log_blowup <= lifting,
        lifting <= 30,
    ensures
        columns_bounded(extended_values(polys), lifting),
{
    let values = extended_values(polys);
    assert forall|k: int| 0 <= k < values.len() implies is_pow2((#[trigger] values[k])@.len())
        && 1 <= log_of(values[k]@.len()) <= lifting by {
        reveal(committed);
        assert(committed(columns[k], log_blowup, store, polys[k]));
        lemma_max_log(columns, k);
        let n = columns[k].log_size_s() + log_blowup;
        crate::poly::domain::lemma_canonic_domain_wf(n);
        lemma_log_of(values[k]@.len(), n);
    }
}

/// The columns that a tree can take: few enough, or all as long as the tree is wide.
pub open spec fn tree_taken(columns: Seq<&Vec<M31>>, lifting: nat) -> bool {
    columns.len() <= u32::MAX / 4 || forall|k: int|
        0 <= k < columns.len() ==> (#[trigger] columns[k])@.len() == pow2(lifting)
}

/// The leaves of columns in order of their sizes, and the large layers above them.
fn sorted_tree<const IS_M31_OUTPUT: bool>(sorted: &Vec<&Vec<M31>>, lifting: u32) -> (r: Option<
    Vec<Vec<Blake2sHash>>,
>)
    requires
        1 <= lifting <= 30,
        sorted@.len() > 0,
        columns_fit(sorted@, lifting as nat),
    ensures
        r is Some <==> tree_taken(sorted@, lifting as nat),
        match r {
            Some(layers) => is_large_tree::<IS_M31_OUTPUT>(
                layers@,
                leaves_s::<Blake2sMerkleHasherGeneric<IS_M31_OUTPUT>>(sorted@, lifting as nat),
            ),
            None => true,
        },
{
    let n = sorted.len();
    let mut logs: Vec<u32> = Vec::new();
    let mut uniform = true;
    let mut k: usize = 0;
    while k < n
        invariant
            k <= n == sorted@.len(),
            lifting <= 30,
            columns_fit(sorted@, lifting as nat),
            logs@.len() == k,
            forall|j: int|
                0 <= j < k ==> #[trigger] logs@[j] == log_of(sorted@[j]@.len()) && sorted@[j]@.len()
                    == pow2(logs@[j] as nat),
            uniform <==> forall|j: int|
                0 <= j < k ==> (#[trigger] sorted@[j])@.len() == pow2(lifting as nat),
        decreases n - k,
    {
        let len = sorted[k].len();
        proof {
            let l = log_of(sorted@[k as int]@.len());
            assert(is_pow2(sorted@[k as int]@.len()));
            lemma_pow2_bound(l);
            lemma_pow2_double((l + 1) as nat);
            lemma_pow2_pos(l);
        }
        let log = ilog2(len);
        proof {
            let l = log_of(sorted@[k as int]@.len());
            lemma_log_unique(log as nat, l);
        }
        if log != lifting {
            proof {
                vstd::arithmetic::power2::lemma_pow2_strictly_increases(log as nat, lifting as nat);
                assert(sorted@[k as int]@.len() != pow2(lifting as nat));
            }
            uniform = false;
        }
        logs.push(log);
        k += 1;
    }
    if uniform {
        return Some(encode_tree::<IS_M31_OUTPUT>(sorted, lifting));
    }
    let r = encode_tree_compact::<IS_M31_OUTPUT>(sorted, &logs, lifting);
    proof {
        let lens = Seq::new(sorted@.len(), |c: int| sorted@[c].len());
        assert forall|b: int, c: int| 0 <= b <= c < logs@.len() implies logs@[b] <= logs@[c] by {
            assert(sorted@[b]@.len() <= sorted@[c]@.len());
            if logs@[b] > logs@[c] {
                vstd::arithmetic::power2::lemma_pow2_strictly_increases(
                    logs@[c] as nat,
                    logs@[b] as nat,
                );
            }
        }
        assert forall|c: int| 0 <= c < logs@.len() implies 0 < #[trigger] logs@[c] <= lifting by {
            assert(1 <= log_of(sorted@[c]@.len()) <= lifting);
        }
        assert forall|c: int| 0 <= c < logs@.len() implies #[trigger] lens[c] == pow2(
            logs@[c] as nat,
        ) by {}
        assert(compact_layout(lens, logs@, lifting) <==> sorted@.len() <= u32::MAX / 4);
    }
    r
}

/// The tree over the extensions of polynomials, in order of their sizes, as far as its layers are
/// large.
fn extensions_tree<const IS_M31_OUTPUT: bool>(polys: &Vec<Poly>, lifting: u32) -> (r: Option<
    Vec<Vec<Blake2sHash>>,
>)
    requires
        1 <= lifting <= 30,
        polys@.len() > 0,
        columns_bounded(extended_values(polys@), lifting as nat),
    ensures
        is_extensions_tree::<IS_M31_OUTPUT>(polys@, lifting as nat, r),
{
    let mut values: Vec<&Vec<M31>> = Vec::new();
    let mut i: usize = 0;
    while i < polys.len()
        invariant
            i <= polys@.len(),
            values@ == extended_values(polys@).take(i as int),
        decreases polys@.len() - i,
    {
        values.push(&polys[i].evals.values);
        i += 1;
        assert(values@ =~= extended_values(polys@).take(i as int));
    }
    assert(values@ =~= extended_values(polys@));
    let sorted = sort_columns(&values);
    proof {
        lemma_sorted_fit(values@, lifting as nat);
        crate::vcs::prover::lemma_sorted_nonempty(values@, lifting as nat);
    }
    proof {
        reveal(is_extensions_tree);
    }
    sorted_tree::<IS_M31_OUTPUT>(&sorted, lifting)
}

#[verifier::opaque]
spec fn is_extensions_tree<const IS_M31_OUTPUT: bool>(
    polys: Seq<Poly>,
    lifting: nat,
    tree: Option<Vec<Vec<Blake2sHash>>>,
) -> bool {
    let sorted = by_size(extended_values(polys), 32);
    &&& sorted.len() > 0
    &&& tree is Some <==> tree_taken(sorted, lifting)
    &&& tree is Some ==> is_large_tree::<IS_M31_OUTPUT>(
        tree->0@,
        leaves_s::<Blake2sMerkleHasherGeneric<IS_M31_OUTPUT>>(sorted, lifting),
    )
}

/// The small layers on top of the large ones, up to the root.
fn finish_tree<const IS_M31_OUTPUT: bool>(
    large: Vec<Vec<Blake2sHash>>,
    lifting: u32,
    Ghost(leaves): Ghost<Seq<Blake2sHash>>,
) -> (r: Vec<Vec<Blake2sHash>>)
    requires
        lifting <= 30,
        leaves.len() == pow2(lifting as nat),
        is_large_tree::<IS_M31_OUTPUT>(large@, leaves),
    ensures
        r@.len() == lifting + 1,
        forall|k: int|
            0 <= k < r@.len() ==> (#[trigger] r@[k])@ == layer_above::<
                Blake2sMerkleHasherGeneric<IS_M31_OUTPUT>,
            >(leaves, k as nat),
{
    let mut layers = large;
    proof {
        if layers@.len() > lifting + 1 {
            let k = lifting + 1;
            assert(is_large_layer(leaves.len(), k as nat));
            lemma_pow2_pos(17);
            vstd::arithmetic::power2::lemma_pow2_strictly_increases(lifting as nat, k as nat);
            vstd::arithmetic::div_mod::lemma_basic_div(leaves.len() as int, pow2(k as nat) as int);
        }
    }
    let full: usize = lifting as usize + 1;
    while layers.len() < full
        invariant
            1 <= layers@.len() <= full,
            full == lifting + 1,
            lifting <= 30,
            forall|k: int|
                0 <= k < layers@.len() ==> (#[trigger] layers@[k])@ == layer_above::<
                    Blake2sMerkleHasherGeneric<IS_M31_OUTPUT>,
                >(leaves, k as nat),
        decreases full - layers@.len(),
    {
        let last: usize = layers.len() - 1;
        let half: usize = layers[last].len() / 2;
        let next = hash_pairs::<Blake2sMerkleHasherGeneric<IS_M31_OUTPUT>>(&layers[last], half);
        proof {
            assert(layers@[last as int]@ == layer_above::<
                Blake2sMerkleHasherGeneric<IS_M31_OUTPUT>,
            >(leaves, last as nat));
        }
        layers.push(next);
    }
    layers
}

/// The largest logarithmic size of columns.
fn largest_log(columns: &Vec<EvalsOrCoeffs>) -> (r: u32)
    requires
        forall|i: int| 0 <= i < columns@.len() ==> (#[trigger] columns@[i]).wf(),
        forall|i: int| 0 <= i < columns@.len() ==> (#[trigger] columns@[i]).log_size_s() <= 30,
    ensures
        r == max_log(columns@),
        r <= 30,
{
    let n: usize = columns.len();
    let mut r: u32 = 0;
    for i in 0..n
        invariant
            n == columns@.len(),
            forall|i: int| 0 <= i < columns@.len() ==> (#[trigger] columns@[i]).wf(),
            forall|i: int| 0 <= i < columns@.len() ==> (#[trigger] columns@[i]).log_size_s() <= 30,
            r == max_log(columns@.take(i as int)),
            r <= 30,
    {
        assert(columns@[i as int].log_size_s() <= 30);
        let log = column_log_size(&columns[i]);
        proof {
            let now = columns@.take(i + 1);
            assert(now.drop_last() =~= columns@.take(i as int));
            assert(now.last() == columns@[i as int]);
        }
        if log > r {
            r = log;
        }
    }
    assert(columns@.take(n as int) =~= columns@);
    r
}

/// What is committed: the polynomials of the columns, and the layers of the tree over their
/// extensions where there is one.
pub open spec fn is_commitment<const IS_M31_OUTPUT: bool>(
    columns: Seq<EvalsOrCoeffs>,
    log_blowup: nat,
    store: bool,
    lifting: nat,
    polys: Seq<Poly>,
    layers: Option<Vec<Vec<Blake2sHash>>>,
) -> bool {
    &&& all_committed(columns, log_blowup, store, polys)
    &&& are_layers::<IS_M31_OUTPUT>(polys, lifting, layers)
}

/// All the layers of the tree over the extensions of polynomials, leaves first, where the tree can
/// take them.
pub open spec fn are_layers<const IS_M31_OUTPUT: bool>(
    polys: Seq<Poly>,
    lifting: nat,
    layers: Option<Vec<Vec<Blake2sHash>>>,
) -> bool {
    let sorted = by_size(extended_values(polys), 32);
    &&& layers is Some <==> tree_taken(sorted, lifting)
    &&& match layers {
        Some(layers) => layers@.len() == lifting + 1 && forall|k: int|
            0 <= k < layers@.len() ==> (#[trigger] layers@[k])@ == layer_above::<
                Blake2sMerkleHasherGeneric<IS_M31_OUTPUT>,
            >(
                leaves_s::<Blake2sMerkleHasherGeneric<IS_M31_OUTPUT>>(sorted, lifting),
                k as nat,
            ),
        None => true,
    }
}

/// The tree over the extensions, finished where there is one.
fn finish_layers<const IS_M31_OUTPUT: bool>(
    pending: Option<Vec<Vec<Blake2sHash>>>,
    lifting: u32,
    Ghost(polys): Ghost<Seq<Poly>>,
) -> (r: Option<Vec<Vec<Blake2sHash>>>)
    requires
        lifting <= 30,
        is_extensions_tree::<IS_M31_OUTPUT>(polys, lifting as nat, pending),
    ensures
        are_layers::<IS_M31_OUTPUT>(polys, lifting as nat, r),
{
    proof {
        reveal(is_extensions_tree);
    }
    match pending {
        Some(large) => {
            let ghost leaves = leaves_s::<Blake2sMerkleHasherGeneric<IS_M31_OUTPUT>>(
                by_size(extended_values(polys), 32),
                lifting as nat,
            );
            Some(finish_tree::<IS_M31_OUTPUT>(large, lifting, Ghost(leaves)))
        },
        None => None,
    }
}

proof fn lemma_chain_ready(
    columns: Seq<EvalsOrCoeffs>,
    polys: Seq<Poly>,
    log_blowup: nat,
    store: bool,
    lifting: nat,
)
    requires
        !some_small(columns),
        all_committed(columns, log_blowup, store, polys),
        max_log(columns) + log_blowup <= lifting <= 30,
    ensures
        columns_bounded(extended_values(polys), lifting),
{
    assert forall|i: int| 0 <= i < columns.len() implies 0 < (
    #[trigger] columns[i]).log_size_s() by {
        assert(!(columns[i].log_size_s() < 14));
    }
    lemma_extended_bounded(columns, polys, log_blowup, store, lifting);
}

/// Transforms, leaves and layers, for a tree that is large enough for the columns.
fn commit_chained<const IS_M31_OUTPUT: bool>(
    columns: Vec<EvalsOrCoeffs>,
    log_blowup_factor: u32,
    twiddles: &TwiddleTree,
    store_polynomials_coefficients: bool,
    lifting: u32,
) -> (r: Result<(Vec<Poly>, Option<Vec<Vec<Blake2sHash>>>), Vec<EvalsOrCoeffs>>)
    requires
        columns@.len() > 0,
        1 <= lifting <= 30,
        max_log(columns@) + log_blowup_factor <= lifting,
        twiddles.wf(),
        forall|i: int|
            0 <= i < columns@.len() ==> fits_both(
                #[trigger] columns@[i],
                *twiddles,
                *twiddles,
                log_blowup_factor as nat,
            ),
    ensures
        r is Err <==> some_small(columns@),
        match r {
            Err(same) => same == columns,
            Ok((polys, layers)) => is_commitment::<IS_M31_OUTPUT>(
                columns@,
                log_blowup_factor as nat,
                store_polynomials_coefficients,
                lifting as nat,
                polys@,
                layers,
            ),
        },
{
    let ghost all = columns@;
    let chain = |polys: &Vec<Poly>| -> (r: Option<Vec<Vec<Blake2sHash>>>)
        requires
            1 <= lifting <= 30,
            polys@.len() > 0,
            columns_bounded(extended_values(polys@), lifting as nat),
        ensures
            is_extensions_tree::<IS_M31_OUTPUT>(polys@, lifting as nat, r),
        { extensions_tree::<IS_M31_OUTPUT>(polys, lifting) };
    proof {
        assert forall|polys: Vec<Poly>|
            #![trigger call_requires(chain, (&polys,))]
            !some_small(all) && all_committed(
                all,
                log_blowup_factor as nat,
                store_polynomials_coefficients,
                polys@,
            ) implies call_requires(chain, (&polys,)) by {
            lemma_chain_ready(
                all,
                polys@,
                log_blowup_factor as nat,
                store_polynomials_coefficients,
                lifting as nat,
            );
        }
    }
    match fused_transform_metal_chained(
        columns,
        log_blowup_factor,
        twiddles,
        None,
        store_polynomials_coefficients,
        chain,
    ) {
        Err(columns) => Err(columns),
        Ok((polys, pending)) => {
            let layers = finish_layers::<IS_M31_OUTPUT>(pending, lifting, Ghost(polys@));
            Ok((polys, layers))
        },
    }
}

/// Commits to columns in one chain of passes: their polynomials and the layers of their tree,
/// leaves first. Declined columns go back.
pub fn commit_polynomials_metal<const IS_M31_OUTPUT: bool>(
    columns: Vec<EvalsOrCoeffs>,
    log_blowup_factor: u32,
    twiddles: &TwiddleTree,
    store_polynomials_coefficients: bool,
    lifting_log_size: Option<u32>,
) -> (r: Result<(Vec<Poly>, Option<Vec<Vec<Blake2sHash>>>), Vec<EvalsOrCoeffs>>)
    requires
        twiddles.wf(),
        forall|i: int|
            0 <= i < columns@.len() ==> fits_both(
                #[trigger] columns@[i],
                *twiddles,
                *twiddles,
                log_blowup_factor as nat,
            ),
        match lifting_log_size {
            Some(log) => log <= 30,
            None => true,
        },
    ensures
        r is Err <==> declined(columns@, log_blowup_factor as nat, lifting_log_size),
        match r {
            Err(same) => same == columns,
            Ok((polys, layers)) => is_commitment::<IS_M31_OUTPUT>(
                columns@,
                log_blowup_factor as nat,
                store_polynomials_coefficients,
                lifting_of(columns@, log_blowup_factor as nat, lifting_log_size),
                polys@,
                layers,
            ),
        },
{
    if columns.len() == 0 {
        return Err(columns);
    }
    proof {
        assert forall|i: int| 0 <= i < columns@.len() implies (#[trigger] columns@[i]).wf()
            && columns@[i].log_size_s() + log_blowup_factor <= 30 by {
            assert(fits_both(
                columns@[i],
                *twiddles,
                *twiddles,
                log_blowup_factor as nat,
            ));
        }
        lemma_max_attained(columns@);
    }
    let max_base_log: u32 = largest_log(&columns);
    if max_base_log < MIN_METAL_FFT_LOG_SIZE {
        proof {
            lemma_max_log(columns@, 0);
            assert(columns@[0].log_size_s() < 14);
        }
        return Err(columns);
    }
    let max_ext_log: u32 = max_base_log + log_blowup_factor;
    let lifting: u32 = match lifting_log_size {
        Some(log) => log,
        None => max_ext_log,
    };
    if lifting < max_ext_log {
        return Err(columns);
    }
    commit_chained::<IS_M31_OUTPUT>(
        columns,
        log_blowup_factor,
        twiddles,
        store_polynomials_coefficients,
        lifting,
    )
}

/// What is committed in passes is the tree that commits to the same extensions without salts:
/// layer by layer, leaves first here and root first there.
pub proof fn lemma_same_tree<const IS_M31_OUTPUT: bool>(
    polys: Seq<Poly>,
    lifting: nat,
    layers: Vec<Vec<Blake2sHash>>,
    tree: MerkleProverLifted<Blake2sMerkleHasherGeneric<IS_M31_OUTPUT>>,
    k: int,
)
    requires
        polys.len() > 0,
        are_layers::<IS_M31_OUTPUT>(polys, lifting, Some(layers)),
        tree.commits(extended_values(polys), lifting, None),
        0 <= k <= lifting,
    ensures
        layers@[k]@ == tree.layers@[lifting - k]@,
{
    assert(tree.layers@[lifting - k]@ == layer_above::<Blake2sMerkleHasherGeneric<IS_M31_OUTPUT>>(
        tree_leaves::<Blake2sMerkleHasherGeneric<IS_M31_OUTPUT>>(
            extended_values(polys),
            lifting,
            None,
        ),
        (lifting - (lifting - k)) as nat,
    ));
    assert((lifting - (lifting - k)) as nat == k as nat);
}

} // verus!
