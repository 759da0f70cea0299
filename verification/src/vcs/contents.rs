//! A tree depends on what its columns hold, and on nothing else of them.

use vstd::prelude::*;

use super::hasher::MerkleHasherLifted;
use super::merkle::{
    leaves_s, piece_end, piece_start, piece_values, pieces_from, row_pieces, run_length,
    ABSORB_WIDTH,
};
use super::prover::{by_size, of_size, tree_height, tree_leaves};
use super::zk::SaltSeed;
use crate::fields::m31::M31;

verus! {

/// Columns that hold the same, one by one.
pub open spec fn same_contents(a: Seq<&Vec<M31>>, b: Seq<&Vec<M31>>) -> bool {
    &&& a.len() == b.len()
    &&& forall|k: int| 0 <= k < a.len() ==> (#[trigger] a[k])@ == (#[trigger] b[k])@
}

proof fn lemma_same_of_size(a: Seq<&Vec<M31>>, b: Seq<&Vec<M31>>, log: nat)
    requires
        same_contents(a, b),
    ensures
        same_contents(of_size(a, log), of_size(b, log)),
    decreases a.len(),
{
    reveal(Seq::filter);
    if a.len() > 0 {
        let n = a.len() - 1;
        let (x, y) = (a.drop_last(), b.drop_last());
        assert forall|k: int| 0 <= k < x.len() implies (#[trigger] x[k])@ == (#[trigger] y[k])@ by {
            assert(a[k]@ == b[k]@);
        }
        lemma_same_of_size(x, y, log);
        assert(a[n]@ == b[n]@);
    }
}

proof fn lemma_same_by_size(a: Seq<&Vec<M31>>, b: Seq<&Vec<M31>>, n: nat)
    requires
        same_contents(a, b),
    ensures
        same_contents(by_size(a, n), by_size(b, n)),
    decreases n,
{
    if n > 0 {
        let m = (n - 1) as nat;
        lemma_same_by_size(a, b, m);
        lemma_same_of_size(a, b, m);
        let (x, y) = (by_size(a, n), by_size(b, n));
        assert forall|k: int| 0 <= k < x.len() implies (#[trigger] x[k])@ == (#[trigger] y[k])@ by {
            let low = by_size(a, m).len();
            if k < low {
                assert(by_size(a, m)[k]@ == by_size(b, m)[k]@);
            } else {
                assert(of_size(a, m)[k - low]@ == of_size(b, m)[k - low]@);
            }
        }
    }
}

proof fn lemma_same_run(a: Seq<&Vec<M31>>, b: Seq<&Vec<M31>>, start: int, limit: nat)
    requires
        same_contents(a, b),
        0 <= start,
    ensures
        run_length(a, start, limit) == run_length(b, start, limit),
    decreases limit,
{
    if limit > 0 {
        lemma_same_run(a, b, start, (limit - 1) as nat);
        if start + limit <= a.len() {
            assert(a[start + limit - 1]@ == b[start + limit - 1]@);
            assert(a[start]@ == b[start]@);
        }
    }
}

proof fn lemma_same_start(a: Seq<&Vec<M31>>, b: Seq<&Vec<M31>>, k: nat)
    requires
        same_contents(a, b),
    ensures
        piece_start(a, k) == piece_start(b, k),
        piece_start(a, k) >= 0,
    decreases k,
{
    if k > 0 {
        lemma_same_start(a, b, (k - 1) as nat);
        lemma_same_run(a, b, piece_start(a, (k - 1) as nat), ABSORB_WIDTH as nat);
    }
}

proof fn lemma_same_pieces(a: Seq<&Vec<M31>>, b: Seq<&Vec<M31>>, start: int)
    requires
        same_contents(a, b),
        0 <= start,
    ensures
        pieces_from(a, start) == pieces_from(b, start),
    decreases a.len() - start,
{
    lemma_same_run(a, b, start, ABSORB_WIDTH as nat);
    if !(start >= a.len() || piece_end(a, start) <= start || piece_end(a, start) > a.len()) {
        lemma_same_pieces(a, b, piece_end(a, start));
    }
}

/// The start of a piece lies among the columns.
proof fn lemma_start_within(a: Seq<&Vec<M31>>, start: int, limit: nat)
    requires
        0 <= start <= a.len(),
    ensures
        start + run_length(a, start, limit) <= a.len(),
    decreases limit,
{
    if limit > 0 {
        lemma_start_within(a, start, (limit - 1) as nat);
    }
}

proof fn lemma_piece_within(a: Seq<&Vec<M31>>, k: nat)
    ensures
        0 <= piece_start(a, k) <= a.len(),
    decreases k,
{
    if k > 0 {
        lemma_piece_within(a, (k - 1) as nat);
        lemma_start_within(a, piece_start(a, (k - 1) as nat), ABSORB_WIDTH as nat);
    }
}

proof fn lemma_same_row(a: Seq<&Vec<M31>>, b: Seq<&Vec<M31>>, i: int, log_size: nat, k: nat)
    requires
        same_contents(a, b),
    ensures
        row_pieces(a, i, log_size, k) == row_pieces(b, i, log_size, k),
    decreases k,
{
    if k > 0 {
        let m = (k - 1) as nat;
        lemma_same_row(a, b, i, log_size, m);
        lemma_same_start(a, b, m);
        lemma_same_start(a, b, k);
        lemma_piece_within(a, k);
        lemma_piece_within(a, m);
        let (from, to) = (piece_start(a, m), piece_start(a, k));
        let (x, y) = (
            piece_values(a, from, to, i, log_size),
            piece_values(b, from, to, i, log_size),
        );
        assert(from <= to);
        assert(x =~= y) by {
            assert forall|j: int| 0 <= j < x.len() implies x[j] == y[j] by {
                assert(a[from + j]@ == b[from + j]@);
            }
        }
    }
}

/// Columns that hold the same have the same leaves.
pub proof fn lemma_same_leaves<H: MerkleHasherLifted>(
    a: Seq<&Vec<M31>>,
    b: Seq<&Vec<M31>>,
    lifting_log_size: nat,
    salt_seed: Option<SaltSeed>,
)
    requires
        same_contents(a, b),
    ensures
        tree_leaves::<H>(a, lifting_log_size, salt_seed) == tree_leaves::<H>(
            b,
            lifting_log_size,
            salt_seed,
        ),
        tree_height(a, lifting_log_size) == tree_height(b, lifting_log_size),
{
    lemma_same_by_size(a, b, 32);
    let (x, y) = (by_size(a, 32), by_size(b, 32));
    lemma_same_pieces(x, y, 0);
    let n = pieces_from(x, 0);
    assert forall|i: int| row_pieces(x, i, lifting_log_size, n) == #[trigger] row_pieces(
        y,
        i,
        lifting_log_size,
        n,
    ) by {
        lemma_same_row(x, y, i, lifting_log_size, n);
    }
    assert(leaves_s::<H>(x, lifting_log_size) =~= leaves_s::<H>(y, lifting_log_size));
}

} // verus!
