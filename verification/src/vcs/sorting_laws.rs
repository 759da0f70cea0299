//! Sorting the columns of a tree leaves none out and adds none.

use vstd::arithmetic::power2::{lemma_pow2_pos, pow2};
use vstd::prelude::*;

use super::prover::{by_size, columns_bounded, lemma_sorted_fit, of_size};
use crate::fields::m31::M31;
use crate::utils::{lemma_log_unique, lemma_pow2_double};

verus! {

/// Columns of `2^log` rows.
pub open spec fn has_size<'a>(log: nat) -> spec_fn(&'a Vec<M31>) -> bool {
    |c: &'a Vec<M31>| c@.len() == pow2(log)
}

/// Of the columns of one size, those of another are none, and those of that size are all.
proof fn lemma_filtered_twice(columns: Seq<&Vec<M31>>, m: nat, l: nat)
    ensures
        of_size(columns, m).filter(has_size(l)) == if m == l {
            columns.filter(has_size(l))
        } else {
            Seq::empty()
        },
    decreases columns.len(),
{
    reveal(Seq::filter);
    if m != l && pow2(m) == pow2(l) {
        lemma_pow2_double(m + 1);
        lemma_pow2_pos(m);
        lemma_log_unique(m, l);
    }
    if columns.len() > 0 {
        let rest = columns.drop_last();
        lemma_filtered_twice(rest, m, l);
        let sub = of_size(rest, m);
        let c = columns.last();
        if c@.len() == pow2(m) {
            assert(of_size(columns, m) == sub.push(c));
            assert(sub.push(c).drop_last() =~= sub);
        }
    }
}

proof fn lemma_sizes_kept(columns: Seq<&Vec<M31>>, n: nat, l: nat)
    ensures
        by_size(columns, n).filter(has_size(l)) == if l < n {
            columns.filter(has_size(l))
        } else {
            Seq::empty()
        },
    decreases n,
{
    reveal(Seq::filter);
    if n > 0 {
        let m = (n - 1) as nat;
        lemma_sizes_kept(columns, m, l);
        lemma_filtered_twice(columns, m, l);
        let (a, b) = (by_size(columns, m), of_size(columns, m));
        Seq::filter_distributes_over_add(a, b, has_size(l));
        assert(Seq::<&Vec<M31>>::empty() + columns.filter(has_size(l)) =~= columns.filter(
            has_size(l),
        ));
        assert(columns.filter(has_size(l)) + Seq::<&Vec<M31>>::empty() =~= columns.filter(
            has_size(l),
        ));
        assert(Seq::<&Vec<M31>>::empty() + Seq::<&Vec<M31>>::empty() =~= Seq::<
            &Vec<M31>,
        >::empty());
    }
}

/// The sorted columns are those of the tree, the short ones first: of every size the same ones, in
/// the same order.
pub proof fn lemma_sorted_keeps_columns(
    columns: Seq<&Vec<M31>>,
    lifting_log_size: nat,
    l: nat,
    j: int,
    k: int,
)
    requires
        columns_bounded(columns, lifting_log_size),
        l < 32,
        0 <= j <= k < by_size(columns, 32).len(),
    ensures
        by_size(columns, 32).filter(has_size(l)) == columns.filter(has_size(l)),
        by_size(columns, 32)[j]@.len() <= by_size(columns, 32)[k]@.len(),
{
    lemma_sizes_kept(columns, 32, l);
    lemma_sorted_fit(columns, lifting_log_size);
}

} // verus!
