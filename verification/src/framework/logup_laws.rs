//! The last lookup column steps from row to row by the rows' sums, all the way round.

use vstd::arithmetic::power2::pow2;
use vstd::prelude::*;
use vstd::seq_lib::to_multiset_remove;

use crate::fields::m31::M31;
use crate::fields::qm31::{lemma_coordinates, QM31};
use crate::fields::{
    inv_of, lemma_add_swap_middle, lemma_canon_both, lemma_inv_exists, lemma_mul_zero,
    lemma_opposite_sum, Field,
};
use crate::framework::logup::{even_share, lemma_size_nonzero, running, total};
use crate::framework::rows::{coset_row, lemma_circle_index, lemma_coset_row_injective};

verus! {

/// The sum of a column over rows.
pub open spec fn sum_over(column: Seq<QM31>, rows: Seq<int>) -> QM31
    decreases rows.len(),
{
    if rows.len() == 0 {
        QM31::zero_el()
    } else {
        sum_over(column, rows.drop_last()).plus(column[rows.last()])
    }
}

/// A row can be summed last.
proof fn lemma_sum_remove(column: Seq<QM31>, rows: Seq<int>, j: int)
    requires
        0 <= j < rows.len(),
    ensures
        sum_over(column, rows) == sum_over(column, rows.remove(j)).plus(column[rows[j]]),
    decreases rows.len(),
{
    let k = rows.len() - 1;
    if j == k {
        assert(rows.remove(j) =~= rows.drop_last());
    } else {
        let head = rows.drop_last();
        lemma_sum_remove(column, head, j);
        let fewer = rows.remove(j);
        assert(fewer.drop_last() =~= head.remove(j));
        assert(fewer.last() == rows.last());
        let (s, x, y) = (sum_over(column, head.remove(j)), column[rows[j]], column[rows.last()]);
        QM31::law_add_assoc(s, x, y);
        QM31::law_add_comm(x, y);
        QM31::law_add_assoc(s, y, x);
    }
}

/// The order of the rows does not matter.
proof fn lemma_sum_reordered(column: Seq<QM31>, a: Seq<int>, b: Seq<int>)
    requires
        a.to_multiset() == b.to_multiset(),
    ensures
        sum_over(column, a) == sum_over(column, b),
    decreases a.len(),
{
    a.to_multiset_ensures();
    b.to_multiset_ensures();
    assert(a.len() == b.len());
    if a.len() > 0 {
        let x = a.last();
        let k = a.len() - 1;
        assert(a.contains(x));
        assert(a.to_multiset().count(x) > 0);
        assert(b.contains(x));
        let j = choose|j: int| 0 <= j < b.len() && b[j] == x;
        lemma_sum_remove(column, b, j);
        assert(a.remove(k) =~= a.drop_last());
        to_multiset_remove(a, k);
        to_multiset_remove(b, j);
        assert(a.remove(k).to_multiset() =~= a.to_multiset().remove(x));
        assert(b.remove(j).to_multiset() =~= b.to_multiset().remove(x));
        lemma_sum_reordered(column, a.drop_last(), b.remove(j));
    }
}

proof fn lemma_total_is_sum_over(column: Seq<QM31>, n: nat)
    ensures
        total(column, n) == sum_over(column, Seq::new(n, |i: int| i)),
    decreases n,
{
    let rows = Seq::new(n, |i: int| i);
    if n > 0 {
        lemma_total_is_sum_over(column, (n - 1) as nat);
        assert(rows.drop_last() =~= Seq::new((n - 1) as nat, |i: int| i));
    }
}

/// Numbers below `n`, all different, `n` of them, are a reordering of those below `n`.
proof fn lemma_all_rows(rows: Seq<int>, n: nat)
    requires
        rows.len() == n,
        forall|i: int| 0 <= i < n ==> 0 <= #[trigger] rows[i] < n,
        forall|i: int, j: int| 0 <= i < n && 0 <= j < n && i != j ==> rows[i] != rows[j],
    ensures
        rows.to_multiset() == Seq::new(n, |i: int| i).to_multiset(),
{
    let plain = Seq::new(n, |i: int| i);
    assert(rows.no_duplicates());
    assert(plain.no_duplicates());
    rows.unique_seq_to_set();
    plain.unique_seq_to_set();
    rows.to_multiset_ensures();
    plain.to_multiset_ensures();
    let (s, t) = (rows.to_set(), plain.to_set());
    assert forall|x: int| s.contains(x) implies t.contains(x) by {
        let i = choose|i: int| 0 <= i < rows.len() && rows[i] == x;
        assert(plain[rows[i]] == x);
    }
    vstd::set_lib::lemma_subset_equality(s, t);
    rows.lemma_multiset_has_no_duplicates();
    plain.lemma_multiset_has_no_duplicates();
    assert forall|x: int| rows.to_multiset().count(x) == plain.to_multiset().count(x) by {
        assert(rows.contains(x) <==> s.contains(x));
        assert(plain.contains(x) <==> t.contains(x));
    }
    assert(rows.to_multiset() =~= plain.to_multiset());
}

/// The rows of the coset's first `n` points.
pub open spec fn coset_rows(n: nat, log_size: nat) -> Seq<int> {
    Seq::new(n, |i: int| coset_row(i, log_size))
}

/// `n` times an element.
pub open spec fn repeated(x: QM31, n: nat) -> QM31
    decreases n,
{
    if n == 0 {
        QM31::zero_el()
    } else {
        repeated(x, (n - 1) as nat).plus(x)
    }
}

/// The running sum is the plain sum less the shifts.
proof fn lemma_running_split(column: Seq<QM31>, shift: QM31, log_size: nat, n: nat)
    ensures
        running(column, shift, log_size, n - 1) == sum_over(
            column,
            coset_rows(n, log_size),
        ).minus(repeated(shift, n)),
    decreases n,
{
    let zero = QM31::zero_el();
    let rows = coset_rows(n, log_size);
    if n == 0 {
        QM31::law_sub(zero, zero);
        QM31::law_add_opposite(zero);
    } else {
        let m = (n - 1) as nat;
        lemma_running_split(column, shift, log_size, m);
        assert(rows.drop_last() =~= coset_rows(m, log_size));
        assert(rows.last() == coset_row(n - 1, log_size));
        let (a, b) = (sum_over(column, coset_rows(m, log_size)), repeated(shift, m));
        let x = column[coset_row(n - 1, log_size)];
        // (a - b) + (x - s) = (a + x) - (b + s)
        QM31::law_sub(a, b);
        QM31::law_sub(x, shift);
        lemma_add_swap_middle(a, b.opposite(), x, shift.opposite());
        lemma_opposite_sum(b, shift);
        QM31::law_sub(a.plus(x), b.plus(shift));
    }
}

proof fn lemma_scaled_sum(x: QM31, a: M31, b: M31)
    ensures
        x.scaled(a.plus(b)) == x.scaled(a).plus(x.scaled(b)),
        x.scaled(M31::one_el()) == x.canon(),
        x.scaled(M31::zero_el()) == QM31::zero_el(),
{
    let one = M31::one_el();
    lemma_coordinates(x, x, a.plus(b));
    lemma_coordinates(x, x, a);
    lemma_coordinates(x, x, b);
    lemma_coordinates(x.scaled(a), x.scaled(b), one);
    lemma_coordinates(x, x, one);
    lemma_coordinates(x, x, M31::zero_el());
    lemma_scaled_coordinate(x.0.0, a, b);
    lemma_scaled_coordinate(x.0.1, a, b);
    lemma_scaled_coordinate(x.1.0, a, b);
    lemma_scaled_coordinate(x.1.1, a, b);
}

proof fn lemma_scaled_coordinate(x: M31, a: M31, b: M31)
    ensures
        x.times(a.plus(b)) == x.times(a).plus(x.times(b)),
        x.times(M31::one_el()) == x.canon(),
        x.times(M31::zero_el()) == M31::zero_el(),
{
    M31::law_distrib(x, a, b);
    M31::law_mul_one(x);
    lemma_mul_zero(x);
}

/// Adding `n` times is scaling by `n`.
proof fn lemma_repeated(x: QM31, n: nat)
    requires
        n < 2147483647,
    ensures
        repeated(x, n) == x.scaled(M31(n as u32)),
    decreases n,
{
    lemma_scaled_sum(x, M31::zero_el(), M31::zero_el());
    if n > 0 {
        let m = (n - 1) as nat;
        lemma_repeated(x, m);
        lemma_scaled_sum(x, M31(m as u32), M31(1));
        assert(M31(m as u32).plus(M31(1)) == M31(n as u32)) by {
            vstd::arithmetic::div_mod::lemma_small_mod(n, 2147483647);
            vstd::arithmetic::div_mod::lemma_small_mod(m, 2147483647);
            vstd::arithmetic::div_mod::lemma_small_mod(1, 2147483647);
        }
        lemma_canon_both(repeated(x, m), x);
        lemma_canon_both(repeated(x, m), x.canon());
        QM31::law_canon_results(x, x);
    }
}

proof fn lemma_scaled_twice(x: QM31, a: M31, b: M31)
    requires
        b.times(a) == M31::one_el(),
    ensures
        x.scaled(a).scaled(b) == x.canon(),
{
    lemma_coordinates(x, x, a);
    lemma_coordinates(x.scaled(a), x, b);
    lemma_scaled_twice_coordinate(x.0.0, a, b);
    lemma_scaled_twice_coordinate(x.0.1, a, b);
    lemma_scaled_twice_coordinate(x.1.0, a, b);
    lemma_scaled_twice_coordinate(x.1.1, a, b);
}

proof fn lemma_scaled_twice_coordinate(x: M31, a: M31, b: M31)
    requires
        b.times(a) == M31::one_el(),
    ensures
        x.times(a).times(b) == x.canon(),
{
    M31::law_mul_assoc(x, a, b);
    M31::law_mul_comm(a, b);
    M31::law_mul_one(x);
}

/// The shares of all rows make up the sum.
proof fn lemma_shares(sum: QM31, log_size: nat)
    requires
        log_size <= 30,
    ensures
        repeated(even_share(sum, log_size), pow2(log_size)) == sum.canon(),
{
    lemma_size_nonzero(log_size);
    let size = M31(pow2(log_size) as u32);
    lemma_inv_exists(size);
    lemma_repeated(even_share(sum, log_size), pow2(log_size));
    lemma_scaled_twice(sum, inv_of(size), size);
}

proof fn lemma_total_canonical(column: Seq<QM31>, n: nat)
    ensures
        total(column, n).canon() == total(column, n),
{
    QM31::law_canon_results(QM31::zero_el(), QM31::zero_el());
    if n > 0 {
        QM31::law_canon_results(total(column, (n - 1) as nat), column[n - 1]);
    }
}

/// Lowered by even shares of its sum, a column sums to nothing.
pub proof fn lemma_running_returns(column: Seq<QM31>, log_size: nat)
    requires
        1 <= log_size <= 30,
    ensures
        running(
            column,
            even_share(total(column, pow2(log_size)), log_size),
            log_size,
            pow2(log_size) - 1,
        ) == QM31::zero_el(),
{
    let n = pow2(log_size);
    let sum = total(column, n);
    let rows = coset_rows(n, log_size);
    assert forall|i: int| 0 <= i < n implies 0 <= #[trigger] rows[i] < n by {
        lemma_circle_index(i, log_size);
    }
    assert forall|i: int, j: int| 0 <= i < n && 0 <= j < n && i != j implies rows[i] != rows[j] by {
        if rows[i] == rows[j] {
            lemma_coset_row_injective(i, j, log_size);
        }
    }
    lemma_all_rows(rows, n);
    lemma_sum_reordered(column, rows, Seq::new(n, |i: int| i));
    lemma_total_is_sum_over(column, n);
    lemma_running_split(column, even_share(sum, log_size), log_size, n);
    lemma_shares(sum, log_size);
    lemma_total_canonical(column, n);
    QM31::law_sub(sum, sum);
    QM31::law_add_opposite(sum);
}

/// From each point of the coset to the next, and from the last back to the first, the running sum
/// grows by the row's element less the shift: what a lookup constraint asks of it.
pub proof fn lemma_last_column_steps(column: Seq<QM31>, log_size: nat, i: int)
    requires
        1 <= log_size <= 30,
        0 <= i < pow2(log_size),
    ensures
        ({
            let shift = even_share(total(column, pow2(log_size)), log_size);
            let here = running(column, shift, log_size, i);
            let previous = running(
                column,
                shift,
                log_size,
                if i == 0 {
                    pow2(log_size) - 1
                } else {
                    i - 1
                },
            );
            here.minus(previous).plus(shift) == column[coset_row(i, log_size)].canon()
        }),
{
    let shift = even_share(total(column, pow2(log_size)), log_size);
    let before = running(column, shift, log_size, i - 1);
    let x = column[coset_row(i, log_size)];
    let zero = QM31::zero_el();
    lemma_running_returns(column, log_size);
    let d = x.minus(shift);
    // (before + d) - before = d
    QM31::law_sub(before.plus(d), before);
    QM31::law_add_comm(before, d);
    QM31::law_add_assoc(d, before, before.opposite());
    QM31::law_add_opposite(before);
    QM31::law_add_zero(d);
    QM31::law_canon_results(x, shift);
    // (x - shift) + shift = x
    QM31::law_sub(x, shift);
    QM31::law_add_assoc(x, shift.opposite(), shift);
    QM31::law_add_comm(shift.opposite(), shift);
    QM31::law_add_opposite(shift);
    QM31::law_add_zero(x);
}

} // verus!
