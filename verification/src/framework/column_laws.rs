//! Lookup columns written at once are those written one by one.

use vstd::arithmetic::power2::pow2;
use vstd::prelude::*;

use crate::fields::qm31::QM31;
use crate::framework::logup::{
    column_added, even_share, finalized, given_by, grown_by, is_running_sum, is_spread, last_elements, stacked,
    tabulates,
};
use crate::framework::packed::{PackedQM31, PackedSecureField};
use crate::framework::rows::{circle_index, coset_row};
use crate::poly::circle_poly::CircleEvaluation;
use crate::secure_column::SecureColumnByCoords;
use crate::utils::{bit_rev, lemma_bit_rev_involution, lemma_bit_rev_range, lemma_pow2_double};

verus! {

/// A function gives one result for each row of each column.
pub open spec fn pure_fractions<F: Fn(usize, usize) -> (PackedSecureField, PackedSecureField)>(
    frac_at: F,
) -> bool {
    forall|c: usize, i: usize, a: (PackedQM31, PackedQM31), b: (PackedQM31, PackedQM31)|
        #[trigger] call_ensures(frac_at, (c, i), a) && #[trigger] call_ensures(
            frac_at,
            (c, i),
            b,
        ) ==> a == b
}

/// Two traces hold the same values.
pub open spec fn same_values(
    a: Seq<SecureColumnByCoords>,
    b: Seq<SecureColumnByCoords>,
) -> bool {
    &&& a.len() == b.len()
    &&& forall|k: int| 0 <= k < a.len() ==> (#[trigger] a[k]).elements() == b[k].elements()
}

/// Traces that grow from `start` by one column of a table after the other.
pub open spec fn one_by_one(
    start: Seq<SecureColumnByCoords>,
    table: Seq<Seq<(PackedQM31, PackedQM31)>>,
    traces: Seq<Seq<SecureColumnByCoords>>,
) -> bool {
    &&& traces.len() == table.len() + 1
    &&& traces[0] == start
    &&& forall|c: int|
        0 <= c < table.len() ==> column_added(traces[c], traces[c + 1], #[trigger] table[c])
}

/// What a pure function gives is one table.
proof fn lemma_same_table<F: Fn(usize, usize) -> (PackedSecureField, PackedSecureField)>(
    frac_at: F,
    a: Seq<Seq<(PackedQM31, PackedQM31)>>,
    b: Seq<Seq<(PackedQM31, PackedQM31)>>,
    n_cols: nat,
    n_rows: nat,
)
    requires
        pure_fractions(frac_at),
        tabulates(frac_at, a, n_cols, n_rows),
        tabulates(frac_at, b, n_cols, n_rows),
    ensures
        a == b,
{
    assert forall|c: int| 0 <= c < n_cols implies a[c] == #[trigger] b[c] by {
        assert(given_by(frac_at, c, a[c]));
        assert(given_by(frac_at, c, b[c]));
        assert forall|i: int| 0 <= i < n_rows implies a[c][i] == #[trigger] b[c][i] by {
            assert(call_ensures(frac_at, (c as usize, i as usize), a[c][i]));
            assert(call_ensures(frac_at, (c as usize, i as usize), b[c][i]));
        }
        assert(a[c] =~= b[c]);
    }
    assert(a =~= b);
}

/// What stands after `k` columns.
proof fn lemma_after_columns(
    start: Seq<SecureColumnByCoords>,
    table: Seq<Seq<(PackedQM31, PackedQM31)>>,
    traces: Seq<Seq<SecureColumnByCoords>>,
    k: int,
)
    requires
        one_by_one(start, table, traces),
        0 <= k <= table.len(),
    ensures
        traces[k].len() == start.len() + k,
        traces[k].take(start.len() as int) == start,
        forall|c: int|
            0 <= c < k ==> Some((#[trigger] traces[k][start.len() + c]).elements()) == stacked(
                table,
                last_elements(start),
                c,
            ),
        last_elements(traces[k]) == stacked(table, last_elements(start), k - 1),
    decreases k,
{
    if k == 0 {
        assert(traces[0].take(start.len() as int) =~= start);
    } else {
        lemma_after_columns(start, table, traces, k - 1);
        let (before, after) = (traces[k - 1], traces[k]);
        assert(column_added(traces[k - 1], traces[(k - 1) + 1], table[k - 1]));
        assert forall|j: int| 0 <= j < before.len() implies after[j] == #[trigger] before[j] by {
            assert(after.drop_last()[j] == before[j]);
        }
        assert(after.take(start.len() as int) =~= before.take(start.len() as int));
        assert forall|c: int| 0 <= c < k implies Some(
            (#[trigger] after[start.len() + c]).elements(),
        ) == stacked(table, last_elements(start), c) by {
            if c < k - 1 {
                assert(after[start.len() + c] == before[start.len() + c]);
            }
        }
    }
}

/// Columns that a pure function gives all at once are those that it gives one by one: the same
/// values in the same order, with the earlier columns unchanged.
pub proof fn lemma_columns_one_by_one<
    F: Fn(usize, usize) -> (PackedSecureField, PackedSecureField),
>(
    frac_at: F,
    n_rows: nat,
    start: Seq<SecureColumnByCoords>,
    at_once: Seq<SecureColumnByCoords>,
    all: Seq<Seq<(PackedQM31, PackedQM31)>>,
    table: Seq<Seq<(PackedQM31, PackedQM31)>>,
    traces: Seq<Seq<SecureColumnByCoords>>,
)
    requires
        pure_fractions(frac_at),
        tabulates(frac_at, all, table.len(), n_rows),
        grown_by(start, at_once, all),
        tabulates(frac_at, table, table.len(), n_rows),
        one_by_one(start, table, traces),
    ensures
        same_values(at_once, traces.last()),
        at_once.take(start.len() as int) == start,
        table.len() == 0 ==> at_once == start,
{
    lemma_same_table(frac_at, all, table, table.len(), n_rows);
    let n = table.len() as int;
    let last = traces[n];
    lemma_after_columns(start, table, traces, n);
    assert forall|k: int| 0 <= k < at_once.len() implies (#[trigger] at_once[k]).elements()
        == last[k].elements() by {
        if k < start.len() {
            assert(at_once.take(start.len() as int)[k] == start[k]);
            assert(last.take(start.len() as int)[k] == start[k]);
        } else {
            let c = k - start.len();
            assert(Some(at_once[start.len() + c].elements()) == stacked(
                all,
                last_elements(start),
                c,
            )) by {
                let row = all[c];
            }
            assert(Some(last[start.len() + c].elements()) == stacked(
                table,
                last_elements(start),
                c,
            ));
        }
    }
    assert(n == 0 ==> at_once =~= at_once.take(start.len() as int));
}

/// The point of the coset whose row this is.
pub open spec fn coset_place(row: int, log_size: nat) -> int {
    let at = bit_rev(row, log_size);
    if at < pow2((log_size - 1) as nat) {
        2 * at
    } else {
        2 * (pow2(log_size) - at) - 1
    }
}

/// Every row is that of a point of the coset.
pub proof fn lemma_coset_place(row: int, log_size: nat)
    requires
        log_size >= 1,
        0 <= row < pow2(log_size),
    ensures
        0 <= coset_place(row, log_size) < pow2(log_size),
        coset_row(coset_place(row, log_size), log_size) == row,
{
    let at = bit_rev(row, log_size);
    lemma_pow2_double(log_size);
    lemma_bit_rev_range(row, log_size);
    lemma_bit_rev_involution(row, log_size);
    assert(circle_index(coset_place(row, log_size), log_size) == at);
}

/// A column has one running sum.
proof fn lemma_running_sum_unique(
    a: Seq<QM31>,
    b: Seq<QM31>,
    column: Seq<QM31>,
    shift: QM31,
    log_size: nat,
)
    requires
        log_size >= 1,
        is_running_sum(a, column, shift, log_size),
        is_running_sum(b, column, shift, log_size),
    ensures
        a == b,
{
    assert forall|row: int| 0 <= row < pow2(log_size) implies a[row] == #[trigger] b[row] by {
        lemma_coset_place(row, log_size);
        let i = coset_place(row, log_size);
        assert(a[coset_row(i, log_size)] == b[coset_row(i, log_size)]);
    }
    assert(a =~= b);
}

/// Elements settle the coordinates.
proof fn lemma_same_coordinates(a: SecureColumnByCoords, b: SecureColumnByCoords, k: int)
    requires
        a.wf(),
        b.wf(),
        a.elements() == b.elements(),
        0 <= k < 4,
    ensures
        a.columns@[k]@ == b.columns@[k]@,
{
    assert(a.elements().len() == a.len_s());
    assert(b.elements().len() == b.len_s());
    assert(a.columns@[k]@.len() == a.len_s());
    assert(b.columns@[k]@.len() == b.len_s());
    assert forall|i: int| 0 <= i < a.len_s() implies a.columns@[k]@[i]
        == #[trigger] b.columns@[k]@[i] by {
        assert(a.elements()[i] == a.at_s(i));
        assert(b.elements()[i] == b.at_s(i));
    }
    assert(a.columns@[k]@ =~= b.columns@[k]@);
}

/// Traces with the same values finalize to the same sum and the same evaluations.
pub proof fn lemma_same_finalized(
    a: Seq<SecureColumnByCoords>,
    b: Seq<SecureColumnByCoords>,
    log_size: nat,
    a_evals: Seq<CircleEvaluation>,
    a_sum: QM31,
    b_evals: Seq<CircleEvaluation>,
    b_sum: QM31,
)
    requires
        log_size >= 1,
        a.len() > 0,
        same_values(a, b),
        forall|k: int| 0 <= k < a.len() ==> (#[trigger] a[k]).wf(),
        forall|k: int| 0 <= k < b.len() ==> (#[trigger] b[k]).wf(),
        finalized(a, log_size, a_evals, a_sum),
        finalized(b, log_size, b_evals, b_sum),
    ensures
        a_sum == b_sum,
        a_evals.len() == b_evals.len(),
        forall|j: int|
            0 <= j < a_evals.len() ==> (#[trigger] a_evals[j]).domain == b_evals[j].domain
                && a_evals[j].values@ == b_evals[j].values@,
{
    let m = a.len() - 1;
    assert(a[m].elements() == b[m].elements());
    let x = choose|last: SecureColumnByCoords|
        #![trigger a.drop_last().push(last)]
        last.wf() && is_running_sum(
            last.elements(),
            a.last().elements(),
            even_share(a_sum, log_size),
            log_size,
        ) && is_spread(a_evals, a.drop_last().push(last), log_size);
    let y = choose|last: SecureColumnByCoords|
        #![trigger b.drop_last().push(last)]
        last.wf() && is_running_sum(
            last.elements(),
            b.last().elements(),
            even_share(b_sum, log_size),
            log_size,
        ) && is_spread(b_evals, b.drop_last().push(last), log_size);
    lemma_running_sum_unique(
        x.elements(),
        y.elements(),
        a.last().elements(),
        even_share(a_sum, log_size),
        log_size,
    );
    let (p, q) = (a.drop_last().push(x), b.drop_last().push(y));
    assert forall|j: int| 0 <= j < a_evals.len() implies (#[trigger] a_evals[j]).domain
        == b_evals[j].domain && a_evals[j].values@ == b_evals[j].values@ by {
        let c = j / 4;
        assert(b_evals[j].values@ == q[c].columns@[j % 4]@);
        if c < m {
            assert(a[c].elements() == b[c].elements());
            assert(a[c].wf() && b[c].wf());
        }
        lemma_same_coordinates(p[c], q[c], j % 4);
    }
}

} // verus!
