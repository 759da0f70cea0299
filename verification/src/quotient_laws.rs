//! What out-of-domain quotients are: numerators of lines through samples, over the lines through
//! the sample points.

use vstd::arithmetic::power2::{lemma_pow2_adds, lemma_pow2_pos, pow2};
use vstd::prelude::*;

use crate::circle::{subgroup_step, CirclePoint};
use crate::fields::cm31::CM31;
use crate::fields::m31::M31;
use crate::fields::qm31::{embed, lemma_coordinates, u_squared, QM31};
use crate::fields::{
    lemma_add_swap_middle, lemma_distrib_sub, lemma_distrib_sub_right, lemma_inv_exists,
    lemma_mul_opposite, lemma_mul_zero, lemma_opposite_sum, lemma_opposite_twice, Field,
};
use crate::poly::circle_poly::CircleEvaluation;
use crate::poly::domain::{canonic_domain, lemma_canonic_domain_wf};
use crate::poly::eval::{lemma_scaled_cm31, lemma_scaled_is_times};
use crate::poly::fold::{lemma_sum_concat, sum_s};
use crate::poly::lifted::lemma_lifted_point;
use crate::quotients::{
    a_sum, b_sum, denominator_s, line_through, numerator_part, quotient_subdomain, row_quotient,
    row_term,
    AccumulatedNumerators, ColumnSampleBatch, LineCoefficients, NumeratorData,
};
use crate::utils::{
    bit_rev, lemma_bit_rev_range, lemma_bit_rev_split, lemma_bit_rev_zero, lemma_lifted_row,
    lemma_log_unique, lemma_pow2_double, lemma_pow2_le, lifted_row,
};

verus! {

// ---------------------------------------------------------------------------------------------
// Differences.

/// `(a - b) - (c - d) = (a - c) - (b - d)`.
pub proof fn lemma_minus_swap<F: Field>(a: F, b: F, c: F, d: F)
    ensures
        a.minus(b).minus(c.minus(d)) == a.minus(c).minus(b.minus(d)),
{
    F::law_sub(a, b);
    F::law_sub(c, d);
    F::law_sub(a, c);
    F::law_sub(b, d);
    F::law_sub(a.minus(b), c.minus(d));
    F::law_sub(a.minus(c), b.minus(d));
    lemma_opposite_sum(c, d.opposite());
    lemma_opposite_sum(b, d.opposite());
    lemma_add_swap_middle(
        a,
        b.opposite(),
        c.opposite(),
        d.opposite().opposite(),
    );
}

/// `(a + b) - (c + d) = (a - c) + (b - d)`.
pub proof fn lemma_plus_minus<F: Field>(a: F, b: F, c: F, d: F)
    ensures
        a.plus(b).minus(c.plus(d)) == a.minus(c).plus(b.minus(d)),
{
    F::law_sub(a.plus(b), c.plus(d));
    F::law_sub(a, c);
    F::law_sub(b, d);
    lemma_opposite_sum(c, d);
    lemma_add_swap_middle(a, b, c.opposite(), d.opposite());
}

/// `a - a = 0`, and `0 - a = -a`.
pub proof fn lemma_minus_self<F: Field>(a: F)
    ensures
        a.minus(a) == F::zero_el(),
        F::zero_el().minus(a) == a.opposite(),
        a.minus(F::zero_el()) == a.canon(),
{
    let z = F::zero_el();
    F::law_sub(a, a);
    F::law_add_opposite(a);
    F::law_sub(z, a);
    F::law_add_comm(z, a.opposite());
    F::law_add_zero(a.opposite());
    F::law_canon_results(a, a);
    F::law_sub(a, z);
    F::law_add_opposite(z);
    F::law_add_comm(z, z.opposite());
    F::law_add_zero(z.opposite());
    F::law_canon_results(z, z);
    F::law_add_zero(a);
}

/// `b - a = -(a - b)`.
pub proof fn lemma_minus_reversed<F: Field>(a: F, b: F)
    ensures
        b.minus(a) == a.minus(b).opposite(),
{
    F::law_sub(a, b);
    F::law_sub(b, a);
    lemma_opposite_sum(a, b.opposite());
    lemma_opposite_twice(b);
    F::law_canon_args(b, a.opposite());
    F::law_add_comm(a.opposite(), b.canon());
}

// ---------------------------------------------------------------------------------------------
// Denominators.

/// Twice the difference of two products, from the parts that the coordinates of a cross product
/// have.
proof fn lemma_cross_parts(px: CM31, qx: CM31, py: CM31, qy: CM31, x: CM31, y: CM31)
    ensures
        ({
            let ex = qx.opposite().minus(qx);
            let ey = qy.opposite().minus(qy);
            let d = px.minus(x).times(qy).minus(py.minus(y).times(qx));
            &&& x.minus(px).times(ey).minus(y.minus(py).times(ex)) == d.plus(d)
            &&& qx.opposite().times(ey) == qy.opposite().times(ex)
        }),
{
    let (a, b) = (px.minus(x), py.minus(y));
    let ex = qx.opposite().minus(qx);
    let ey = qy.opposite().minus(qy);
    lemma_minus_reversed(px, x);
    lemma_minus_reversed(py, y);
    // (-a)(-q - q) = a q + a q
    lemma_doubled_product(a, qy);
    lemma_doubled_product(b, qx);
    let (s, t) = (a.times(qy), b.times(qx));
    lemma_plus_minus(s, s, t, t);
    // (-q)(-r - r) = (-r)(-q - q)
    lemma_doubled_product(qx, qy);
    lemma_doubled_product(qy, qx);
    CM31::law_mul_comm(qx, qy);
}

proof fn lemma_doubled_product(a: CM31, q: CM31)
    ensures
        a.opposite().times(q.opposite().minus(q)) == a.times(q).plus(a.times(q)),
{
    let m = a.opposite();
    lemma_distrib_sub(m, q.opposite(), q);
    lemma_mul_opposite(m, q);
    lemma_mul_opposite(a, q);
    lemma_opposite_twice(a.times(q));
    CM31::law_canon_results(a, q);
    CM31::law_sub(a.times(q), m.times(q));
}

/// The cross product of the vectors from a sample point to a domain point and to the conjugate of
/// the sample point. It vanishes where the domain point lies on the line through the other two.
pub open spec fn cross_product(sample: CirclePoint<QM31>, x: QM31, y: QM31) -> QM31 {
    x.minus(sample.x).times(sample.y.conjugated().minus(sample.y)).minus(
        y.minus(sample.y).times(sample.x.conjugated().minus(sample.x)),
    )
}

/// The denominator of a sample, times `2 u`, is the cross product of the vectors from the sample
/// point to the domain point and to the conjugate of the sample point.
pub proof fn lemma_denominator_is_cross_product(sample: CirclePoint<QM31>, x: M31, y: M31)
    ensures
        cross_product(sample, embed(x), embed(y)) == QM31(
            CM31::zero_el(),
            denominator_s(sample, x, y).plus(denominator_s(sample, x, y)),
        ),
{
    let z = CM31::zero_el();
    let k = M31(0);
    let (px, qx, py, qy) = (sample.x.0, sample.x.1, sample.y.0, sample.y.1);
    let (dx, dy) = (CM31(x, M31(0)), CM31(y, M31(0)));
    assert(z == CM31(M31(0), M31(0)));
    let ex = qx.opposite().minus(qx);
    let ey = qy.opposite().minus(qy);
    lemma_coordinates(embed(x), sample.x, k);
    lemma_coordinates(embed(y), sample.y, k);
    lemma_coordinates(sample.x.conjugated(), sample.x, k);
    lemma_coordinates(sample.y.conjugated(), sample.y, k);
    lemma_minus_self(px);
    lemma_minus_self(py);
    lemma_minus_self(qx);
    lemma_minus_self(qy);
    let a = embed(x).minus(sample.x);
    let b = sample.y.conjugated().minus(sample.y);
    let c = embed(y).minus(sample.y);
    let d = sample.x.conjugated().minus(sample.x);
    assert(a == QM31(dx.minus(px), qx.opposite()));
    assert(b == QM31(z, ey));
    assert(c == QM31(dy.minus(py), qy.opposite()));
    assert(d == QM31(z, ex));
    lemma_coordinates(a, b, k);
    lemma_coordinates(c, d, k);
    lemma_coordinates(a.times(b), c.times(d), k);
    lemma_cross_parts(px, qx, py, qy, dx, dy);
    // The first coordinates cancel.
    lemma_zero_summand(a.0, u_squared().times(a.1.times(ey)));
    lemma_zero_summand(c.0, u_squared().times(c.1.times(ex)));
    CM31::law_canon_results(u_squared(), a.1.times(ey));
    lemma_minus_self(u_squared().times(a.1.times(ey)));
    // The second ones are the difference.
    lemma_mul_zero(a.1);
    lemma_mul_zero(c.1);
    CM31::law_add_zero(a.0.times(ey));
    CM31::law_add_zero(c.0.times(ex));
    CM31::law_canon_results(a.0, ey);
    CM31::law_canon_results(c.0, ex);
}

proof fn lemma_zero_summand(a: CM31, b: CM31)
    ensures
        a.times(CM31::zero_el()).plus(b) == b.canon(),
{
    lemma_mul_zero(a);
    CM31::law_add_comm(CM31::zero_el(), b);
    CM31::law_add_zero(b);
}

/// The denominator is affine in the domain point: its slopes are minus the second part of the
/// sample point's `y` and the second part of its `x`.
pub proof fn lemma_denominator_affine(sample: CirclePoint<QM31>, x: M31, y: M31)
    ensures
        denominator_s(sample, x, y) == sample.x.0.times(sample.y.1).minus(
            sample.y.0.times(sample.x.1),
        ).minus(sample.y.1.scaled(x).minus(sample.x.1.scaled(y))),
{
    let (px, qx, py, qy) = (sample.x.0, sample.x.1, sample.y.0, sample.y.1);
    let (dx, dy) = (CM31(x, M31(0)), CM31(y, M31(0)));
    lemma_distrib_sub_right(px, dx, qy);
    lemma_distrib_sub_right(py, dy, qx);
    lemma_minus_swap(px.times(qy), dx.times(qy), py.times(qx), dy.times(qx));
    CM31::law_mul_comm(dx, qy);
    CM31::law_mul_comm(dy, qx);
    lemma_scaled_cm31(qy, x);
    lemma_scaled_cm31(qx, y);
}

// ---------------------------------------------------------------------------------------------
// Combination.

/// The quotient of one sample, times its denominator, is its numerator less the first linear term
/// times `y`.
pub proof fn lemma_quotient_times_denominator(
    acc: AccumulatedNumerators,
    log_size: nat,
    row: int,
    x: M31,
    y: M31,
)
    requires
        denominator_s(acc.sample_point, x, y).canon() != CM31::zero_el(),
    ensures
        row_quotient(seq![acc], log_size, row, x, y, 1).scaled_cm31(
            denominator_s(acc.sample_point, x, y),
        ) == acc.partial_numerators_acc.at_s(
            lifted_row(row, acc.log_ratio(log_size)),
        ).minus(acc.first_linear_term_acc.scaled(y)),
{
    let d = denominator_s(acc.sample_point, x, y);
    let i = crate::fields::inv_of(d);
    lemma_inv_exists(d);
    let at = acc.partial_numerators_acc.at_s(
        lifted_row(row, acc.log_ratio(log_size)),
    );
    let v = at.minus(acc.first_linear_term_acc.scaled(y));
    QM31::law_canon_results(at, acc.first_linear_term_acc.scaled(y));
    lemma_coordinates(v, v, y);
    assert(v.0.canon() == v.0 && v.1.canon() == v.1);
    let t = row_term(acc, log_size, row, x, y);
    assert(t == v.scaled_cm31(i));
    let z = QM31::zero_el();
    assert(seq![acc][0] == acc);
    assert(row_quotient(seq![acc], log_size, row, x, y, 0) == z);
    assert(row_quotient(seq![acc], log_size, row, x, y, 1) == z.plus(t));
    QM31::law_add_comm(z, t);
    QM31::law_add_zero(t);
    lemma_coordinates(t, t, y);
    CM31::law_canon_results(v.0, i);
    CM31::law_canon_results(v.1, i);
    assert(z.plus(t) == t);
    CM31::law_mul_assoc(v.0, i, d);
    CM31::law_mul_assoc(v.1, i, d);
    CM31::law_mul_comm(i, d);
    CM31::law_mul_one(v.0);
    CM31::law_mul_one(v.1);
}

/// The quotients of several samples are added up.
pub proof fn lemma_quotients_add(
    a: Seq<AccumulatedNumerators>,
    b: Seq<AccumulatedNumerators>,
    log_size: nat,
    row: int,
    x: M31,
    y: M31,
)
    ensures
        row_quotient(a + b, log_size, row, x, y, (a + b).len()) == row_quotient(
            a,
            log_size,
            row,
            x,
            y,
            a.len(),
        ).plus(row_quotient(b, log_size, row, x, y, b.len())),
    decreases b.len(),
{
    let all = a + b;
    if b.len() == 0 {
        assert(all =~= a);
        let q = row_quotient(a, log_size, row, x, y, a.len());
        QM31::law_add_zero(q);
        lemma_row_quotient_canonical(a, log_size, row, x, y, a.len());
    } else {
        let c = b.drop_last();
        lemma_quotients_add(a, c, log_size, row, x, y);
        let n = (all.len() - 1) as nat;
        assert((a + c).len() == n);
        lemma_row_quotient_prefix(all, a + c, log_size, row, x, y, n);
        lemma_row_quotient_prefix(b, c, log_size, row, x, y, c.len());
        let t = row_term(b.last(), log_size, row, x, y);
        assert(all[n as int] == b.last());
        QM31::law_add_assoc(
            row_quotient(a, log_size, row, x, y, a.len()),
            row_quotient(c, log_size, row, x, y, c.len()),
            t,
        );
    }
}

proof fn lemma_row_quotient_canonical(
    accs: Seq<AccumulatedNumerators>,
    log_size: nat,
    row: int,
    x: M31,
    y: M31,
    k: nat,
)
    ensures
        row_quotient(accs, log_size, row, x, y, k).canon() == row_quotient(
            accs,
            log_size,
            row,
            x,
            y,
            k,
        ),
{
    QM31::law_canon_results(QM31::zero_el(), QM31::zero_el());
    if k > 0 {
        QM31::law_canon_results(
            row_quotient(accs, log_size, row, x, y, (k - 1) as nat),
            row_term(accs[k - 1], log_size, row, x, y),
        );
    }
}

proof fn lemma_row_quotient_prefix(
    a: Seq<AccumulatedNumerators>,
    b: Seq<AccumulatedNumerators>,
    log_size: nat,
    row: int,
    x: M31,
    y: M31,
    k: nat,
)
    requires
        k <= a.len(),
        k <= b.len(),
        forall|i: int| 0 <= i < k ==> a[i] == b[i],
    ensures
        row_quotient(a, log_size, row, x, y, k) == row_quotient(b, log_size, row, x, y, k),
    decreases k,
{
    if k > 0 {
        lemma_row_quotient_prefix(a, b, log_size, row, x, y, (k - 1) as nat);
        assert(a[k - 1] == b[k - 1]);
    }
}

// ---------------------------------------------------------------------------------------------
// Numerators.

/// What a sampled column adds to a numerator where it holds `f` at height `y`: its random
/// coefficient times how far `(y, f)` lies off the line through the sample `(p, v)` and its
/// conjugate.
pub open spec fn off_line(p: QM31, entry: NumeratorData, f: M31, y: M31) -> QM31 {
    let v = entry.sample_value;
    entry.random_coeff.times(
        p.conjugated().minus(p).times(embed(f).minus(v)).minus(
            v.conjugated().minus(v).times(embed(y).minus(p)),
        ),
    )
}

/// A line through a sample, against the point `(y, f)`.
proof fn lemma_line_value(p: QM31, entry: NumeratorData, f: M31, y: M31)
    ensures
        ({
            let l = line_through(p, entry.sample_value, entry.random_coeff);
            l.c.scaled(f).minus(l.a.scaled(y)).minus(l.b) == off_line(p, entry, f, y)
        }),
{
    let v = entry.sample_value;
    let r = entry.random_coeff;
    let a = v.conjugated().minus(v);
    let c = p.conjugated().minus(p);
    let b = v.times(c).minus(a.times(p));
    let (ef, ey) = (embed(f), embed(y));
    lemma_distrib_sub(c, ef, v);
    lemma_distrib_sub(a, ey, p);
    QM31::law_mul_comm(c, v);
    lemma_minus_swap(c.times(ef), c.times(v), a.times(ey), a.times(p));
    // c (f - v) - a (y - p) = (c f - a y) - b
    lemma_distrib_sub(r, c.times(ef).minus(a.times(ey)), b);
    lemma_distrib_sub(r, c.times(ef), a.times(ey));
    QM31::law_mul_assoc(r, c, ef);
    QM31::law_mul_assoc(r, a, ey);
    lemma_scaled_is_times(r.times(c), f);
    lemma_scaled_is_times(r.times(a), y);
}

/// What the first `k` columns of a batch add in a row at height `y`.
pub open spec fn off_lines(
    columns: Seq<&CircleEvaluation>,
    batch: ColumnSampleBatch,
    row: int,
    y: M31,
    k: nat,
) -> Seq<QM31> {
    Seq::new(
        k,
        |i: int|
            off_line(
                batch.point.y,
                batch.cols_vals_randpows@[i],
                columns[batch.cols_vals_randpows@[i].column_index as int].values@[row],
                y,
            ),
    )
}

/// The numerator of a batch in a row at height `y`, less the first linear term times `y`, is the
/// sum of what its columns add, each with its own random coefficient.
pub proof fn lemma_numerator_adds_up(
    columns: Seq<&CircleEvaluation>,
    batch: ColumnSampleBatch,
    row: int,
    y: M31,
)
    ensures
        numerator_part(columns, batch, row, batch.cols_vals_randpows@.len()).minus(
            a_sum(batch.lines()).scaled(y),
        ) == sum_s(off_lines(columns, batch, row, y, batch.cols_vals_randpows@.len())),
{
    let n = batch.cols_vals_randpows@.len();
    let lines = batch.lines();
    lemma_numerator_prefix(columns, batch, row, y, n);
    let a = lines.map_values(|l: LineCoefficients| l.a);
    let b = lines.map_values(|l: LineCoefficients| l.b);
    assert(a.take(n as int) =~= a);
    assert(b.take(n as int) =~= b);
    let c = value_terms(columns, batch, row, n);
    // (-B + C) - A y = (C - A y) - B
    lemma_numerator_start(columns, batch, row, n);
    let (sa, sb, sc) = (sum_s(a).scaled(y), sum_s(b), sum_s(c));
    QM31::law_add_comm(sb.opposite(), sc);
    QM31::law_sub(sc.plus(sb.opposite()), sa);
    QM31::law_add_assoc(sc, sb.opposite(), sa.opposite());
    QM31::law_add_comm(sb.opposite(), sa.opposite());
    QM31::law_add_assoc(sc, sa.opposite(), sb.opposite());
    QM31::law_sub(sc, sa);
    QM31::law_sub(sc.minus(sa), sb);
}

/// The values of the first `k` columns in a row, each times its third coefficient.
spec fn value_terms(
    columns: Seq<&CircleEvaluation>,
    batch: ColumnSampleBatch,
    row: int,
    k: nat,
) -> Seq<QM31> {
    Seq::new(
        k,
        |i: int|
            batch.lines()[i].c.scaled(
                columns[batch.cols_vals_randpows@[i].column_index as int].values@[row],
            ),
    )
}

proof fn lemma_numerator_start(
    columns: Seq<&CircleEvaluation>,
    batch: ColumnSampleBatch,
    row: int,
    k: nat,
)
    ensures
        numerator_part(columns, batch, row, k) == b_sum(batch.lines()).opposite().plus(
            sum_s(value_terms(columns, batch, row, k)),
        ),
    decreases k,
{
    let m = b_sum(batch.lines()).opposite();
    let c = value_terms(columns, batch, row, k);
    if k == 0 {
        QM31::law_add_zero(m);
        QM31::law_canon_results(b_sum(batch.lines()), m);
    } else {
        let j = (k - 1) as nat;
        lemma_numerator_start(columns, batch, row, j);
        assert(c.drop_last() =~= value_terms(columns, batch, row, j));
        QM31::law_add_assoc(m, sum_s(c.drop_last()), c.last());
    }
}

proof fn lemma_numerator_prefix(
    columns: Seq<&CircleEvaluation>,
    batch: ColumnSampleBatch,
    row: int,
    y: M31,
    k: nat,
)
    requires
        k <= batch.cols_vals_randpows@.len(),
    ensures
        ({
            let a = batch.lines().map_values(|l: LineCoefficients| l.a).take(k as int);
            let b = batch.lines().map_values(|l: LineCoefficients| l.b).take(k as int);
            sum_s(value_terms(columns, batch, row, k)).minus(sum_s(a).scaled(y)).minus(sum_s(b))
                == sum_s(off_lines(columns, batch, row, y, k))
        }),
    decreases k,
{
    let all_a = batch.lines().map_values(|l: LineCoefficients| l.a);
    let all_b = batch.lines().map_values(|l: LineCoefficients| l.b);
    let a = all_a.take(k as int);
    let b = all_b.take(k as int);
    let c = value_terms(columns, batch, row, k);
    let t = off_lines(columns, batch, row, y, k);
    let ey = embed(y);
    lemma_scaled_is_times(sum_s(a), y);
    if k == 0 {
        lemma_mul_zero(ey);
        lemma_minus_self(QM31::zero_el());
    } else {
        let j = (k - 1) as nat;
        lemma_numerator_prefix(columns, batch, row, y, j);
        assert(a.drop_last() =~= all_a.take(j as int));
        assert(b.drop_last() =~= all_b.take(j as int));
        assert(c.drop_last() =~= value_terms(columns, batch, row, j));
        assert(t.drop_last() =~= off_lines(columns, batch, row, y, j));
        let entry = batch.cols_vals_randpows@[j as int];
        let f = columns[entry.column_index as int].values@[row];
        lemma_line_value(batch.point.y, entry, f, y);
        let l = batch.lines()[j as int];
        let (a0, b0, c0) = (sum_s(a.drop_last()), sum_s(b.drop_last()), sum_s(c.drop_last()));
        lemma_scaled_is_times(a0, y);
        lemma_scaled_is_times(l.a, y);
        crate::fields::lemma_distrib_right(a0, l.a, ey);
        let cf = l.c.scaled(f);
        lemma_plus_minus(c0, cf, a0.times(ey), l.a.times(ey));
        lemma_plus_minus(c0.minus(a0.times(ey)), cf.minus(l.a.times(ey)), b0, l.b);
    }
}

/// The numerators of a batch are the sum of those of its parts: if the columns of a batch are
/// those of two others at the same point, its numerators and its first linear term are theirs,
/// added up.
pub proof fn lemma_batches_add(
    columns: Seq<&CircleEvaluation>,
    a: ColumnSampleBatch,
    b: ColumnSampleBatch,
    both: ColumnSampleBatch,
    row: int,
    y: M31,
)
    requires
        a.point == both.point,
        b.point == both.point,
        both.cols_vals_randpows@ == a.cols_vals_randpows@ + b.cols_vals_randpows@,
    ensures
        numerator_part(columns, both, row, both.cols_vals_randpows@.len()).minus(
            a_sum(both.lines()).scaled(y),
        ) == numerator_part(columns, a, row, a.cols_vals_randpows@.len()).minus(
            a_sum(a.lines()).scaled(y),
        ).plus(
            numerator_part(columns, b, row, b.cols_vals_randpows@.len()).minus(
                a_sum(b.lines()).scaled(y),
            ),
        ),
        a_sum(both.lines()) == a_sum(a.lines()).plus(a_sum(b.lines())),
{
    let (n, m) = (a.cols_vals_randpows@.len(), b.cols_vals_randpows@.len());
    lemma_numerator_adds_up(columns, a, row, y);
    lemma_numerator_adds_up(columns, b, row, y);
    lemma_numerator_adds_up(columns, both, row, y);
    let (s, t) = (off_lines(columns, a, row, y, n), off_lines(columns, b, row, y, m));
    assert(off_lines(columns, both, row, y, n + m) =~= s + t);
    lemma_sum_concat(s, t);
    let first = |l: LineCoefficients| l.a;
    assert(both.lines() =~= a.lines() + b.lines());
    assert(both.lines().map_values(first) =~= a.lines().map_values(first) + b.lines().map_values(
        first,
    ));
    lemma_sum_concat(a.lines().map_values(first), b.lines().map_values(first));
}

// ---------------------------------------------------------------------------------------------
// Rows.

/// The rows of the subdomain on which quotients are computed are the first rows of the domain.
pub proof fn lemma_subdomain_rows(lifting: nat, log_blowup: nat, row: int)
    requires
        1 <= lifting <= 30,
        log_blowup < lifting,
        0 <= row < pow2((lifting - log_blowup) as nat),
    ensures
        quotient_subdomain(lifting, log_blowup).reversed_at(row) == canonic_domain(
            lifting,
        ).reversed_at(row),
{
    let (large, small) = (canonic_domain(lifting), quotient_subdomain(lifting, log_blowup));
    let (h, g) = (large.half_coset, small.half_coset);
    lemma_canonic_domain_wf(lifting);
    let a = (lifting - log_blowup) as nat;
    let l = (lifting - 1) as nat;
    let m = (l - log_blowup) as nat;
    let p = pow2(log_blowup) as int;
    lemma_pow2_pos(log_blowup);
    lemma_bit_rev_split(row, 0, a, log_blowup);
    lemma_bit_rev_zero(log_blowup);
    assert(pow2(a) * 0 == 0);
    assert(a + log_blowup == lifting);
    let k = bit_rev(row, a);
    assert(bit_rev(row, lifting) == k * p);
    lemma_bit_rev_range(row, a);
    // The steps.
    lemma_pow2_adds((31 - l) as nat, log_blowup);
    assert(((31 - l) + log_blowup) as nat == (31 - m) as nat);
    let (s, t) = (subgroup_step(l) as int, subgroup_step(m) as int);
    assert(t == s * p);
    lemma_pow2_adds(m, log_blowup);
    assert(pow2(l) == pow2(m) * p);
    let half = pow2(m) as int;
    assert(k < half <==> k * p < half * p) by (nonlinear_arith)
        requires
            p > 0,
    ;
    if k < half {
        assert((k * p) * s == k * t) by (nonlinear_arith)
            requires
                t == s * p,
        ;
    } else {
        assert((k * p - half * p) * s == (k - half) * t) by (nonlinear_arith)
            requires
                t == s * p,
        ;
    }
}

/// Numerators of a smaller column are read where the column was committed: in every row of the
/// larger domain at the point of the row, doubled down to the column's size.
pub proof fn lemma_quotient_reads_doubled_point(
    acc: AccumulatedNumerators,
    lifting: nat,
    n: nat,
    log_blowup: nat,
    row: int,
    g: spec_fn(CirclePoint<M31>) -> QM31,
)
    requires
        log_blowup < n <= lifting <= 30,
        acc.partial_numerators_acc.len_s() == pow2((n - log_blowup) as nat),
        forall|j: int|
            0 <= j < pow2((n - log_blowup) as nat) ==> #[trigger] acc.partial_numerators_acc.at_s(j)
                == g(canonic_domain(n).reversed_at(j)),
        0 <= row < pow2((lifting - log_blowup) as nat),
    ensures
        acc.partial_numerators_acc.at_s(
            lifted_row(row, acc.log_ratio((lifting - log_blowup) as nat)),
        ) == g(canonic_domain(lifting).reversed_at(row).doubled((lifting - n) as nat)),
{
    let s = (lifting - log_blowup) as nat;
    let k = (n - log_blowup) as nat;
    let r = (lifting - n) as nat;
    let m = choose|m: nat|
        m <= s && acc.partial_numerators_acc.len_s() == #[trigger] pow2(m);
    assert(k <= s && acc.partial_numerators_acc.len_s() == pow2(k));
    lemma_pow2_double(k + 1);
    lemma_pow2_pos(k);
    lemma_log_unique(k, m);
    assert(acc.log_ratio(s) == r);
    lemma_pow2_le(s, lifting);
    assert(n + r == lifting);
    lemma_lifted_point(n, r, row);
    lemma_lifted_row(row, s, k);
}

} // verus!
