//! Out-of-domain quotients: numerators accumulated per sample point, and their combination.

use vstd::arithmetic::power2::{lemma2_to64, lemma_pow2_adds, lemma_pow2_pos, pow2};
use vstd::prelude::*;

use crate::circle::{circle_order, coset_s, subgroup_step, CirclePoint, Coset};
use crate::fields::batch::batch_inverse;
use crate::fields::cm31::CM31;
use crate::fields::m31::M31;
use crate::fields::qm31::QM31;
use crate::fields::{inv_of, lemma_inv_of, Field};
use crate::poly::circle_poly::CircleEvaluation;
use crate::poly::domain::{
    canonic_domain, lemma_canonic_domain_wf, lemma_doubled_at, CanonicCoset, CircleDomain,
};
use crate::poly::extension::{evaluate, evaluates, interpolate, interpolates};
use crate::poly::fft::lemma_same_doubling;
use crate::poly::fold::sum_s;
use crate::poly::twiddles::{layer_twiddle, tower_index, TwiddleTree};
use crate::secure_column::{SecureColumnByCoords, SecureEvaluation};
use crate::utils::{
    bit_rev, bit_reverse_index, ilog2, lemma_bit_rev_range, lemma_bit_rev_split,
    lemma_lifted_row, lemma_log_unique, lemma_pow2_bound, lemma_pow2_double, lemma_pow2_le,
    lift_row, lifted_row, pow2_usize,
};

verus! {

/// One column sampled at a point: its index, its value there, and its random coefficient.
#[derive(Clone, Copy)]
pub struct NumeratorData {
    pub column_index: usize,
    pub sample_value: QM31,
    pub random_coeff: QM31,
}

/// The columns that are sampled at one point.
pub struct ColumnSampleBatch {
    pub point: CirclePoint<QM31>,
    pub cols_vals_randpows: Vec<NumeratorData>,
}

/// The numerators of one batch, on the rows of a domain.
pub struct AccumulatedNumerators {
    pub sample_point: CirclePoint<QM31>,
    pub partial_numerators_acc: SecureColumnByCoords,
    pub first_linear_term_acc: QM31,
}

/// Columns of one size with their batches.
pub struct NumeratorBatchGroup<'a> {
    pub columns: Vec<&'a CircleEvaluation>,
    pub sample_batches: Vec<ColumnSampleBatch>,
}

/// The coefficients of a line, scaled.
#[derive(Clone, Copy)]
pub struct LineCoefficients {
    pub a: QM31,
    pub b: QM31,
    pub c: QM31,
}

/// The line `a y + b = c v` through a sample `(y, v)` and its conjugate, times `alpha`.
pub open spec fn line_through(y: QM31, v: QM31, alpha: QM31) -> LineCoefficients {
    let a = v.conjugated().minus(v);
    let c = y.conjugated().minus(y);
    let b = v.times(c).minus(a.times(y));
    LineCoefficients { a: alpha.times(a), b: alpha.times(b), c: alpha.times(c) }
}

/// A line through `(y, v)` with slope `a / c` passes through `(y + c, v + a)`.
proof fn lemma_line_points<F: Field>(y: F, v: F, y2: F, v2: F, alpha: F)
    ensures
        ({
            let a = v2.minus(v);
            let c = y2.minus(y);
            let b = v.times(c).minus(a.times(y));
            &&& alpha.times(a).times(y).plus(alpha.times(b)) == alpha.times(c).times(v)
            &&& alpha.times(a).times(y2).plus(alpha.times(b)) == alpha.times(c).times(v2)
        }),
{
    let a = v2.minus(v);
    let c = y2.minus(y);
    let vc = v.times(c);
    let ay = a.times(y);
    let b = vc.minus(ay);
    // a y + b = v c
    F::law_sub(vc, ay);
    F::law_add_comm(ay, b);
    F::law_add_assoc(vc, ay.opposite(), ay);
    F::law_add_comm(ay.opposite(), ay);
    F::law_add_opposite(ay);
    F::law_add_zero(vc);
    F::law_canon_results(v, c);
    assert(ay.plus(b) == vc);
    // alpha a y + alpha b = alpha c v
    F::law_mul_assoc(alpha, a, y);
    F::law_distrib(alpha, ay, b);
    F::law_mul_assoc(alpha, c, v);
    F::law_mul_comm(v, c);
    // y2 = y + c and v2 = v + a, up to representatives
    lemma_minus_plus(y2, y);
    lemma_minus_plus(v2, v);
    let ac = a.times(c);
    F::law_distrib(a, y, c);
    lemma_times_canon(a, y2);
    assert(a.times(y2) == ay.plus(ac));
    F::law_distrib(c, v, a);
    lemma_times_canon(c, v2);
    F::law_mul_comm(c, a);
    F::law_mul_comm(c, v);
    assert(c.times(v2) == vc.plus(ac));
    // a y2 + b = c v2
    F::law_add_comm(ay.plus(ac), b);
    F::law_add_assoc(b, ay, ac);
    F::law_add_comm(b, ay);
    assert(a.times(y2).plus(b) == c.times(v2));
    F::law_mul_assoc(alpha, a, y2);
    F::law_distrib(alpha, a.times(y2), b);
    F::law_mul_assoc(alpha, c, v2);
}

proof fn lemma_times_canon<F: Field>(a: F, x: F)
    ensures
        a.times(x.canon()) == a.times(x),
{
    F::law_canon_args(x, a);
    F::law_mul_comm(a, x.canon());
    F::law_mul_comm(a, x);
}

proof fn lemma_minus_plus<F: Field>(x: F, y: F)
    ensures
        y.plus(x.minus(y)) == x.canon(),
{
    F::law_sub(x, y);
    F::law_add_comm(y, x.plus(y.opposite()));
    F::law_add_assoc(x, y.opposite(), y);
    F::law_add_comm(y.opposite(), y);
    F::law_add_opposite(y);
    F::law_add_zero(x);
}

/// The line of a sample passes through the sample and through its conjugate: there
/// `a y + b = c v`.
pub proof fn lemma_line_through(y: QM31, v: QM31, alpha: QM31)
    ensures
        ({
            let l = line_through(y, v, alpha);
            &&& l.a.times(y).plus(l.b) == l.c.times(v)
            &&& l.a.times(y.conjugated()).plus(l.b) == l.c.times(v.conjugated())
        }),
{
    lemma_line_points(y, v, y.conjugated(), v.conjugated(), alpha);
}

/// The line through a sample and its conjugate, times `alpha`.
pub fn complex_conjugate_line_coeffs(point: CirclePoint<QM31>, value: QM31, alpha: QM31) -> (r:
    LineCoefficients)
    requires
        point.y != point.y.conjugated(),
    ensures
        r == line_through(point.y, value, alpha),
{
    let a = value.complex_conjugate().sub(value);
    let c = point.y.complex_conjugate().sub(point.y);
    let b = value.mul(c).sub(a.mul(point.y));
    LineCoefficients { a: alpha.mul(a), b: alpha.mul(b), c: alpha.mul(c) }
}

impl ColumnSampleBatch {
    /// The lines of the batch.
    pub open spec fn lines(self) -> Seq<LineCoefficients> {
        Seq::new(
            self.cols_vals_randpows@.len(),
            |i: int|
                line_through(
                    self.point.y,
                    self.cols_vals_randpows@[i].sample_value,
                    self.cols_vals_randpows@[i].random_coeff,
                ),
        )
    }

    /// Whether the columns of the batch are there and hold at least `rows` rows.
    pub open spec fn fits(self, columns: Seq<&CircleEvaluation>, rows: int) -> bool {
        &&& self.point.y != self.point.y.conjugated()
        &&& forall|i: int|
            0 <= i < self.cols_vals_randpows@.len() ==> (#[trigger] self.cols_vals_randpows@[i]).column_index
                < columns.len() && columns[self.cols_vals_randpows@[i].column_index as int].values.len()
                >= rows
    }
}

/// The lines of a batch.
pub fn quotient_constants(batch: &ColumnSampleBatch) -> (r: Vec<LineCoefficients>)
    requires
        batch.point.y != batch.point.y.conjugated(),
    ensures
        r@ == batch.lines(),
{
    let n: usize = batch.cols_vals_randpows.len();
    let mut r: Vec<LineCoefficients> = Vec::with_capacity(n);
    for i in 0..n
        invariant
            n == batch.cols_vals_randpows.len(),
            batch.point.y != batch.point.y.conjugated(),
            r@ == batch.lines().take(i as int),
    {
        let data = batch.cols_vals_randpows[i];
        r.push(complex_conjugate_line_coeffs(batch.point, data.sample_value, data.random_coeff));
        assert(r@ =~= batch.lines().take(i + 1));
    }
    assert(r@ =~= batch.lines());
    r
}

/// The sum of the first coefficients.
pub open spec fn a_sum(lines: Seq<LineCoefficients>) -> QM31 {
    sum_s(lines.map_values(|l: LineCoefficients| l.a))
}

/// The sum of the second coefficients.
pub open spec fn b_sum(lines: Seq<LineCoefficients>) -> QM31 {
    sum_s(lines.map_values(|l: LineCoefficients| l.b))
}

/// The numerator in a row from the first `k` columns of a batch: minus the sum of the second
/// coefficients, plus each value times its third coefficient.
pub open spec fn numerator_part(
    columns: Seq<&CircleEvaluation>,
    batch: ColumnSampleBatch,
    row: int,
    k: nat,
) -> QM31
    decreases k,
{
    if k == 0 {
        b_sum(batch.lines()).opposite()
    } else {
        let value = columns[batch.cols_vals_randpows@[k - 1].column_index as int].values@[row];
        numerator_part(columns, batch, row, (k - 1) as nat).plus(
            batch.lines()[k - 1].c.scaled(value),
        )
    }
}

/// The numerators of a batch, row by row.
pub open spec fn numerators_s(
    columns: Seq<&CircleEvaluation>,
    batch: ColumnSampleBatch,
    rows: nat,
) -> Seq<QM31> {
    Seq::new(
        rows,
        |row: int|
            numerator_part(columns, batch, row, batch.cols_vals_randpows@.len()),
    )
}

fn sum_a(lines: &Vec<LineCoefficients>) -> (r: QM31)
    ensures
        r == a_sum(lines@),
{
    let mut acc = QM31::zero();
    let n: usize = lines.len();
    let ghost v = lines@.map_values(|l: LineCoefficients| l.a);
    assert(v.take(0).len() == 0);
    for i in 0..n
        invariant
            n == lines.len(),
            v == lines@.map_values(|l: LineCoefficients| l.a),
            acc == sum_s(v.take(i as int)),
    {
        acc = acc.add(lines[i].a);
        assert(v.take(i + 1).drop_last() =~= v.take(i as int));
    }
    assert(v.take(n as int) =~= v);
    acc
}

pub fn sum_b(lines: &Vec<LineCoefficients>) -> (r: QM31)
    ensures
        r == b_sum(lines@),
{
    let mut acc = QM31::zero();
    let n: usize = lines.len();
    let ghost v = lines@.map_values(|l: LineCoefficients| l.b);
    assert(v.take(0).len() == 0);
    for i in 0..n
        invariant
            n == lines.len(),
            v == lines@.map_values(|l: LineCoefficients| l.b),
            acc == sum_s(v.take(i as int)),
    {
        acc = acc.add(lines[i].b);
        assert(v.take(i + 1).drop_last() =~= v.take(i as int));
    }
    assert(v.take(n as int) =~= v);
    acc
}

/// The numerators of one batch, column after column.
pub fn accumulate_batch_cpu(
    columns: &Vec<&CircleEvaluation>,
    batch: &ColumnSampleBatch,
    lines: &Vec<LineCoefficients>,
    subdomain_size: usize,
) -> (r: SecureColumnByCoords)
    requires
        batch.fits(columns@, subdomain_size as int),
        lines@ == batch.lines(),
    ensures
        r.wf(),
        r.elements() == numerators_s(columns@, *batch, subdomain_size as nat),
{
    let init = sum_b(lines).neg();
    let mut acc: Vec<QM31> = Vec::with_capacity(subdomain_size);
    for row in 0..subdomain_size
        invariant
            init == b_sum(batch.lines()).opposite(),
            acc.len() == row,
            forall|k: int| 0 <= k < row ==> #[trigger] acc@[k] == init,
    {
        acc.push(init);
    }
    let n: usize = batch.cols_vals_randpows.len();
    for k in 0..n
        invariant
            n == batch.cols_vals_randpows.len(),
            batch.fits(columns@, subdomain_size as int),
            lines@ == batch.lines(),
            acc.len() == subdomain_size,
            forall|row: int|
                0 <= row < subdomain_size ==> #[trigger] acc@[row] == numerator_part(
                    columns@,
                    *batch,
                    row,
                    k as nat,
                ),
    {
        let column_index = batch.cols_vals_randpows[k].column_index;
        assert(batch.cols_vals_randpows@[k as int].column_index == column_index);
        let column = columns[column_index];
        let c = lines[k].c;
        for row in 0..subdomain_size
            invariant
                k < n,
                n == batch.cols_vals_randpows.len(),
                lines@ == batch.lines(),
                acc.len() == subdomain_size,
                column_index == batch.cols_vals_randpows@[k as int].column_index,
                column == columns@[column_index as int],
                column.values.len() >= subdomain_size,
                c == batch.lines()[k as int].c,
                forall|i: int|
                    0 <= i < row ==> #[trigger] acc@[i] == numerator_part(
                        columns@,
                        *batch,
                        i,
                        (k + 1) as nat,
                    ),
                forall|i: int|
                    row <= i < subdomain_size ==> #[trigger] acc@[i] == numerator_part(
                        columns@,
                        *batch,
                        i,
                        k as nat,
                    ),
        {
            let value = acc[row].add(c.mul_m31(column.values[row]));
            acc.set(row, value);
        }
    }
    let mut r = SecureColumnByCoords::new_empty();
    for row in 0..subdomain_size
        invariant
            acc.len() == subdomain_size,
            r.wf(),
            r.elements() == acc@.take(row as int),
    {
        r.push(acc[row]);
        assert(r.elements() =~= acc@.take(row + 1));
    }
    assert(r.elements() =~= numerators_s(columns@, *batch, subdomain_size as nat));
    r
}

/// `entry` holds the numerators of a batch.
pub open spec fn accumulated(
    columns: Seq<&CircleEvaluation>,
    batch: ColumnSampleBatch,
    rows: nat,
    entry: AccumulatedNumerators,
) -> bool {
    &&& entry.sample_point == batch.point
    &&& entry.first_linear_term_acc == a_sum(batch.lines())
    &&& entry.partial_numerators_acc.wf()
    &&& entry.partial_numerators_acc.elements() == numerators_s(columns, batch, rows)
}

/// The number of rows of the subdomain on which the numerators of a group are computed.
pub open spec fn subdomain_rows(columns: Seq<&CircleEvaluation>, log_blowup_factor: nat) -> nat {
    columns[0].values@.len() / pow2(log_blowup_factor)
}

/// Appends the numerators of every batch over columns of one size, in order.
pub fn accumulate_numerators(
    columns: &Vec<&CircleEvaluation>,
    sample_batches: &Vec<ColumnSampleBatch>,
    accumulated_numerators_vec: &mut Vec<AccumulatedNumerators>,
    log_blowup_factor: u32,
)
    requires
        columns.len() > 0,
        log_blowup_factor <= 31,
        forall|b: int|
            0 <= b < sample_batches.len() ==> (#[trigger] sample_batches@[b]).fits(
                columns@,
                subdomain_rows(columns@, log_blowup_factor as nat) as int,
            ),
    ensures
        final(accumulated_numerators_vec).len() == old(accumulated_numerators_vec).len()
            + sample_batches.len(),
        final(accumulated_numerators_vec)@.take(old(accumulated_numerators_vec).len() as int)
            == old(accumulated_numerators_vec)@,
        forall|b: int|
            0 <= b < sample_batches.len() ==> accumulated(
                columns@,
                #[trigger] sample_batches@[b],
                subdomain_rows(columns@, log_blowup_factor as nat),
                final(accumulated_numerators_vec)@[old(accumulated_numerators_vec).len() + b],
            ),
{
    let size: usize = columns[0].values.len() / pow2_usize(log_blowup_factor);
    let n: usize = sample_batches.len();
    let ghost before = accumulated_numerators_vec@;
    let ghost rows = size as nat;
    for b in 0..n
        invariant
            n == sample_batches.len(),
            size == rows,
            rows == subdomain_rows(columns@, log_blowup_factor as nat),
            forall|i: int|
                0 <= i < sample_batches.len() ==> (#[trigger] sample_batches@[i]).fits(
                    columns@,
                    rows as int,
                ),
            accumulated_numerators_vec.len() == before.len() + b,
            accumulated_numerators_vec@.take(before.len() as int) =~= before,
            forall|i: int|
                0 <= i < b ==> accumulated(
                    columns@,
                    #[trigger] sample_batches@[i],
                    rows,
                    accumulated_numerators_vec@[before.len() + i],
                ),
    {
        let batch = &sample_batches[b];
        assert(sample_batches@[b as int].fits(columns@, rows as int));
        let lines = quotient_constants(batch);
        let partial = accumulate_batch_cpu(columns, batch, &lines, size);
        let entry = AccumulatedNumerators {
            sample_point: batch.point,
            partial_numerators_acc: partial,
            first_linear_term_acc: sum_a(&lines),
        };
        let ghost v0 = accumulated_numerators_vec@;
        accumulated_numerators_vec.push(entry);
        assert(accumulated_numerators_vec@.take(before.len() as int) =~= v0.take(
            before.len() as int,
        ));
    }
}

/// The number of batches in the groups before place `g`.
pub open spec fn batch_offset(groups: Seq<NumeratorBatchGroup>, g: int) -> nat
    decreases g,
{
    if g <= 0 {
        0
    } else {
        batch_offset(groups, g - 1) + groups[g - 1].sample_batches@.len()
    }
}

/// `entry` holds the numerators of a batch: those that were computed elsewhere if there are such,
/// or else those of the columns.
pub open spec fn entry_from(
    columns: Seq<&CircleEvaluation>,
    batch: ColumnSampleBatch,
    rows: nat,
    result: Option<SecureColumnByCoords>,
    entry: AccumulatedNumerators,
) -> bool {
    match result {
        Some(column) => {
            &&& entry.sample_point == batch.point
            &&& entry.first_linear_term_acc == a_sum(batch.lines())
            &&& entry.partial_numerators_acc == column
        },
        None => accumulated(columns, batch, rows, entry),
    }
}

/// Whether every group has columns and fitting batches.
pub open spec fn groups_fit(groups: Seq<NumeratorBatchGroup>, log_blowup_factor: nat) -> bool {
    forall|g: int|
        0 <= g < groups.len() ==> (#[trigger] groups[g]).columns.len() > 0 && forall|b: int|
            0 <= b < groups[g].sample_batches.len() ==> (
            #[trigger] groups[g].sample_batches@[b]).fits(
                groups[g].columns@,
                subdomain_rows(groups[g].columns@, log_blowup_factor) as int,
            )
}

/// Every entry from `start` on is that of its batch, group after group and batch after batch.
pub open spec fn entries_from(
    groups: Seq<NumeratorBatchGroup>,
    log_blowup_factor: nat,
    results: Seq<Option<SecureColumnByCoords>>,
    entries: Seq<AccumulatedNumerators>,
    start: nat,
) -> bool {
    forall|g: int, b: int|
        #![trigger groups[g].sample_batches@[b]]
        0 <= g < groups.len() && 0 <= b < groups[g].sample_batches.len() && batch_offset(groups, g)
            + b < entries.len() - start ==> entry_from(
            groups[g].columns@,
            groups[g].sample_batches@[b],
            subdomain_rows(groups[g].columns@, log_blowup_factor),
            results[batch_offset(groups, g) + b],
            entries[(start + batch_offset(groups, g) + b) as int],
        )
}

pub proof fn lemma_batch_offset_mono(groups: Seq<NumeratorBatchGroup>, g: int, h: int)
    requires
        0 <= g <= h <= groups.len(),
    ensures
        batch_offset(groups, g) <= batch_offset(groups, h),
        g < h ==> batch_offset(groups, g) + groups[g].sample_batches@.len() <= batch_offset(
            groups,
            h,
        ),
    decreases h - g,
{
    if g < h {
        lemma_batch_offset_mono(groups, g + 1, h);
    }
}

/// Appends the entry of one batch of a group, computing its numerators unless they are given.
fn push_entry(
    columns: &Vec<&CircleEvaluation>,
    batch: &ColumnSampleBatch,
    size: usize,
    result: Option<SecureColumnByCoords>,
    destination: &mut Vec<AccumulatedNumerators>,
)
    requires
        batch.fits(columns@, size as int),
    ensures
        final(destination).len() == old(destination).len() + 1,
        final(destination)@.drop_last() == old(destination)@,
        entry_from(columns@, *batch, size as nat, result, final(destination)@.last()),
{
    let lines = quotient_constants(batch);
    let first_linear_term_acc = sum_a(&lines);
    let partial_numerators_acc = match result {
        Some(column) => column,
        None => accumulate_batch_cpu(columns, batch, &lines, size),
    };
    let ghost before = destination@;
    destination.push(
        AccumulatedNumerators {
            sample_point: batch.point,
            partial_numerators_acc,
            first_linear_term_acc,
        },
    );
    assert(destination@.drop_last() =~= before);
}

/// Appends the entries of all batches in order, group after group. A batch whose numerators were
/// computed elsewhere takes them from `results`, at its place among all batches; the others are
/// computed here.
pub fn accumulate_groups_with(
    groups: &Vec<NumeratorBatchGroup>,
    results: Vec<Option<SecureColumnByCoords>>,
    destination: &mut Vec<AccumulatedNumerators>,
    log_blowup_factor: u32,
)
    requires
        log_blowup_factor <= 31,
        groups_fit(groups@, log_blowup_factor as nat),
        results.len() == batch_offset(groups@, groups.len() as int),
    ensures
        final(destination).len() == old(destination).len() + batch_offset(
            groups@,
            groups.len() as int,
        ),
        final(destination)@.take(old(destination).len() as int) == old(destination)@,
        entries_from(
            groups@,
            log_blowup_factor as nat,
            results@,
            final(destination)@,
            old(destination)@.len(),
        ),
{
    let ghost before = destination@;
    let ghost all = results@;
    let ghost lb = log_blowup_factor as nat;
    let mut results = results;
    let mut position: usize = 0;
    let n_groups: usize = groups.len();
    for g in 0..n_groups
        invariant
            n_groups == groups.len(),
            log_blowup_factor <= 31,
            lb == log_blowup_factor,
            groups_fit(groups@, lb),
            all.len() == batch_offset(groups@, groups.len() as int),
            results.len() == all.len(),
            position == batch_offset(groups@, g as int),
            forall|i: int| position <= i < all.len() ==> results@[i] == #[trigger] all[i],
            destination.len() == before.len() + position,
            destination@.take(before.len() as int) == before,
            entries_from(groups@, lb, all, destination@, before.len()),
    {
        let group = &groups[g];
        assert(groups@[g as int].columns.len() > 0);
        let size: usize = group.columns[0].values.len() / pow2_usize(log_blowup_factor);
        let n: usize = group.sample_batches.len();
        proof {
            lemma_batch_offset_mono(groups@, g as int, groups.len() as int);
        }
        for b in 0..n
            invariant
                g < groups.len(),
                *group == groups@[g as int],
                n == group.sample_batches.len(),
                size == subdomain_rows(group.columns@, lb),
                groups_fit(groups@, lb),
                all.len() == batch_offset(groups@, groups.len() as int),
                batch_offset(groups@, g as int) + n <= all.len(),
                results.len() == all.len(),
                position == batch_offset(groups@, g as int) + b,
                forall|i: int| position <= i < all.len() ==> results@[i] == #[trigger] all[i],
                destination.len() == before.len() + position,
                destination@.take(before.len() as int) == before,
                entries_from(groups@, lb, all, destination@, before.len()),
        {
            let batch = &group.sample_batches[b];
            assert(groups@[g as int].sample_batches@[b as int].fits(
                groups@[g as int].columns@,
                size as int,
            ));
            let ghost v0 = destination@;
            assert(results@[position as int] == all[position as int]);
            let mut slot: Option<SecureColumnByCoords> = None;
            std::mem::swap(&mut slot, &mut results[position]);
            push_entry(&group.columns, batch, size, slot, destination);
            proof {
                assert(destination@.take(before.len() as int) =~= v0.take(before.len() as int));
                assert forall|h: int, i: int|
                    #![trigger groups@[h].sample_batches@[i]]
                    0 <= h < groups@.len() && 0 <= i < groups@[h].sample_batches.len()
                        && batch_offset(groups@, h) + i < destination@.len()
                        - before.len() implies entry_from(
                    groups@[h].columns@,
                    groups@[h].sample_batches@[i],
                    subdomain_rows(groups@[h].columns@, lb),
                    all[batch_offset(groups@, h) + i],
                    destination@[(before.len() + batch_offset(groups@, h) + i) as int],
                ) by {
                    let at = batch_offset(groups@, h) + i;
                    if at < position {
                        assert(destination@.drop_last()[before.len() + at] == v0[before.len()
                            + at]);
                        assert(destination@[before.len() + at] == v0[before.len() + at]);
                    } else {
                        lemma_same_batch(groups@, g as int, b as int, h, i);
                    }
                }
            }
            position = position + 1;
        }
    }
}

pub proof fn lemma_same_batch(groups: Seq<NumeratorBatchGroup>, g: int, b: int, h: int, i: int)
    requires
        0 <= g < groups.len(),
        0 <= h < groups.len(),
        0 <= b < groups[g].sample_batches@.len(),
        0 <= i < groups[h].sample_batches@.len(),
        batch_offset(groups, g) + b == batch_offset(groups, h) + i,
    ensures
        g == h,
        b == i,
{
    if g < h {
        lemma_batch_offset_mono(groups, g, h);
    } else if h < g {
        lemma_batch_offset_mono(groups, h, g);
    }
}

/// Appends the numerators of all batches of all groups, in order.
pub fn accumulate_numerator_groups(
    groups: &Vec<NumeratorBatchGroup>,
    accumulated_numerators_vec: &mut Vec<AccumulatedNumerators>,
    log_blowup_factor: u32,
)
    requires
        log_blowup_factor <= 31,
        groups_fit(groups@, log_blowup_factor as nat),
        batch_offset(groups@, groups.len() as int) <= usize::MAX,
    ensures
        final(accumulated_numerators_vec).len() == old(accumulated_numerators_vec).len()
            + batch_offset(groups@, groups.len() as int),
        final(accumulated_numerators_vec)@.take(old(accumulated_numerators_vec).len() as int)
            == old(accumulated_numerators_vec)@,
        entries_from(
            groups@,
            log_blowup_factor as nat,
            Seq::new(
                batch_offset(groups@, groups.len() as int),
                |i: int| None::<SecureColumnByCoords>,
            ),
            final(accumulated_numerators_vec)@,
            old(accumulated_numerators_vec)@.len(),
        ),
{
    let mut total: usize = 0;
    let n_groups: usize = groups.len();
    for g in 0..n_groups
        invariant
            n_groups == groups.len(),
            total == batch_offset(groups@, g as int),
            batch_offset(groups@, groups.len() as int) <= usize::MAX,
    {
        proof {
            lemma_batch_offset_mono(groups@, g as int, groups.len() as int);
        }
        total = total + groups[g].sample_batches.len();
    }
    let mut results: Vec<Option<SecureColumnByCoords>> = Vec::with_capacity(total);
    for i in 0..total
        invariant
            results.len() == i,
            forall|k: int| 0 <= k < i ==> #[trigger] results@[k] is None,
    {
        results.push(None);
    }
    assert(results@ =~= Seq::new(total as nat, |i: int| None::<SecureColumnByCoords>));
    accumulate_groups_with(groups, results, accumulated_numerators_vec, log_blowup_factor);
}

// ---------------------------------------------------------------------------------------------
// Combination.

/// The denominator of a sample at a domain point: zero where the point lies on the line through
/// the sample and its conjugate.
pub open spec fn denominator_s(sample: CirclePoint<QM31>, x: M31, y: M31) -> CM31 {
    let dx = CM31(x, M31(0));
    let dy = CM31(y, M31(0));
    sample.x.0.minus(dx).times(sample.y.1).minus(sample.y.0.minus(dy).times(sample.x.1))
}

/// The denominator of a sample at a domain point.
pub fn denominator(sample: CirclePoint<QM31>, x: M31, y: M31) -> (r: CM31)
    ensures
        r == denominator_s(sample, x, y),
{
    let dx = CM31(x, M31(0));
    let dy = CM31(y, M31(0));
    sample.x.0.sub(dx).mul(sample.y.1).sub(sample.y.0.sub(dy).mul(sample.x.1))
}

/// The denominators of all samples at a domain point.
pub fn denominators(sample_points: &Vec<CirclePoint<QM31>>, domain_point: CirclePoint<M31>) -> (r:
    Vec<CM31>)
    ensures
        r.len() == sample_points.len(),
        forall|k: int|
            0 <= k < r.len() ==> #[trigger] r@[k] == denominator_s(
                sample_points@[k],
                domain_point.x,
                domain_point.y,
            ),
{
    let n: usize = sample_points.len();
    let mut r: Vec<CM31> = Vec::with_capacity(n);
    for k in 0..n
        invariant
            n == sample_points.len(),
            r.len() == k,
            forall|i: int|
                0 <= i < k ==> #[trigger] r@[i] == denominator_s(
                    sample_points@[i],
                    domain_point.x,
                    domain_point.y,
                ),
    {
        r.push(denominator(sample_points[k], domain_point.x, domain_point.y));
    }
    r
}

impl AccumulatedNumerators {
    /// Whether the numerators fill a power of two of rows, at most `2^log_size`, and the first
    /// `rows` rows can be lifted from them: from a single row only one can.
    pub open spec fn fits_rows(self, log_size: nat, rows: int) -> bool {
        &&& self.partial_numerators_acc.wf()
        &&& exists|k: nat|
            k <= log_size && self.partial_numerators_acc.len_s() == #[trigger] pow2(k)
        &&& rows <= 1 || self.partial_numerators_acc.len_s() >= 2
    }

    /// Whether all `2^log_size` rows can be lifted from the numerators.
    pub open spec fn fits(self, log_size: nat) -> bool {
        self.fits_rows(log_size, pow2(log_size) as int)
    }

    /// How much smaller the numerators are than `2^log_size` rows.
    pub open spec fn log_ratio(self, log_size: nat) -> nat {
        (log_size - choose|k: nat|
            k <= log_size && self.partial_numerators_acc.len_s() == #[trigger] pow2(k)) as nat
    }
}

/// The share of one sample in the quotient of a row.
pub open spec fn row_term(
    acc: AccumulatedNumerators,
    log_size: nat,
    row: int,
    x: M31,
    y: M31,
) -> QM31 {
    acc.partial_numerators_acc.at_s(lifted_row(row, acc.log_ratio(log_size))).minus(
        acc.first_linear_term_acc.scaled(y),
    ).scaled_cm31(inv_of(denominator_s(acc.sample_point, x, y)))
}

/// The quotient of a row from the first `k` samples.
pub open spec fn row_quotient(
    accs: Seq<AccumulatedNumerators>,
    log_size: nat,
    row: int,
    x: M31,
    y: M31,
    k: nat,
) -> QM31
    decreases k,
{
    if k == 0 {
        QM31::zero_el()
    } else {
        row_quotient(accs, log_size, row, x, y, (k - 1) as nat).plus(
            row_term(accs[k - 1], log_size, row, x, y),
        )
    }
}

/// Whether no denominator of the given rows is zero.
pub open spec fn no_row_pole(
    accs: Seq<AccumulatedNumerators>,
    xs: Seq<M31>,
    ys: Seq<M31>,
    rows: int,
) -> bool {
    forall|row: int, k: int|
        #![trigger denominator_s(accs[k].sample_point, xs[row], ys[row])]
        0 <= row < rows && 0 <= k < accs.len() ==> denominator_s(
            accs[k].sample_point,
            xs[row],
            ys[row],
        ).canon() != CM31::zero_el()
}

/// The quotients of all rows.
pub open spec fn row_quotients(
    accs: Seq<AccumulatedNumerators>,
    log_size: nat,
    xs: Seq<M31>,
    ys: Seq<M31>,
    rows: nat,
) -> Seq<QM31> {
    Seq::new(
        rows,
        |row: int| row_quotient(accs, log_size, row, xs[row], ys[row], accs.len()),
    )
}

/// How much smaller the numerators of a sample are.
pub fn numerator_ratio(acc: &AccumulatedNumerators, log_size: u32) -> (r: u32)
    requires
        exists|k: nat|
            k <= log_size && acc.partial_numerators_acc.len_s() == #[trigger] pow2(k),
    ensures
        r == acc.log_ratio(log_size as nat),
        r <= log_size,
{
    let len: usize = acc.partial_numerators_acc.len();
    let ghost m = choose|m: nat|
        m <= log_size && acc.partial_numerators_acc.len_s() == #[trigger] pow2(m);
    proof {
        lemma_pow2_pos(m);
        lemma_pow2_double(m + 1);
    }
    let log: u32 = ilog2(len);
    proof {
        lemma_log_unique(log as nat, m);
    }
    log_size - log
}

/// How much smaller the numerators of each sample are.
fn log_ratios(accs: &Vec<AccumulatedNumerators>, log_size: u32, Ghost(rows): Ghost<int>) -> (r: Vec<
    u32,
>)
    requires
        forall|k: int|
            0 <= k < accs.len() ==> (#[trigger] accs@[k]).fits_rows(log_size as nat, rows),
    ensures
        r.len() == accs.len(),
        forall|k: int|
            0 <= k < r.len() ==> #[trigger] r@[k] == accs@[k].log_ratio(log_size as nat),
{
    let n: usize = accs.len();
    let mut r: Vec<u32> = Vec::with_capacity(n);
    for k in 0..n
        invariant
            n == accs.len(),
            forall|i: int|
                0 <= i < accs.len() ==> (#[trigger] accs@[i]).fits_rows(log_size as nat, rows),
            r.len() == k,
            forall|i: int|
                0 <= i < k ==> #[trigger] r@[i] == accs@[i].log_ratio(log_size as nat),
    {
        assert(accs@[k as int].fits_rows(log_size as nat, rows));
        r.push(numerator_ratio(&accs[k], log_size));
    }
    r
}

/// Rows whose denominators are inverted together.
pub const CHUNK_ROWS: usize = 4096;

/// The denominators of the rows from `start` to `end`, row after row.
fn chunk_denominators(
    accs: &Vec<AccumulatedNumerators>,
    xs: &[M31],
    ys: &[M31],
    start: usize,
    end: usize,
) -> (r: Vec<CM31>)
    requires
        start <= end <= xs.len(),
        end <= ys.len(),
    ensures
        r.len() == (end - start) * accs.len(),
        forall|row: int, k: int|
            #![trigger r@[(row - start) * accs.len() + k]]
            start <= row < end && 0 <= k < accs.len() ==> r@[(row - start) * accs.len() + k]
                == denominator_s(accs@[k].sample_point, xs@[row], ys@[row]),
{
    let n: usize = accs.len();
    let mut r: Vec<CM31> = Vec::new();
    assert(0 * n == 0);
    for row in start..end
        invariant
            start <= row <= end,
            end <= xs.len(),
            end <= ys.len(),
            n == accs.len(),
            r.len() == (row - start) * n,
            forall|i: int, k: int|
                #![trigger r@[(i - start) * n + k]]
                start <= i < row && 0 <= k < n ==> r@[(i - start) * n + k] == denominator_s(
                    accs@[k].sample_point,
                    xs@[i],
                    ys@[i],
                ),
    {
        let x = xs[row];
        let y = ys[row];
        let ghost base = (row - start) * n;
        for k in 0..n
            invariant
                start <= row < end,
                end <= xs.len(),
                end <= ys.len(),
                n == accs.len(),
                x == xs@[row as int],
                y == ys@[row as int],
                base == (row - start) * n,
                r.len() == base + k,
                forall|j: int|
                    base <= j < base + k ==> #[trigger] r@[j] == denominator_s(
                        accs@[j - base].sample_point,
                        x,
                        y,
                    ),
                forall|i: int, j: int|
                    #![trigger r@[(i - start) * n + j]]
                    start <= i < row && 0 <= j < n ==> r@[(i - start) * n + j] == denominator_s(
                        accs@[j].sample_point,
                        xs@[i],
                        ys@[i],
                    ),
        {
            let ghost r0 = r@;
            r.push(denominator(accs[k].sample_point, x, y));
            assert forall|i: int, j: int|
                #![trigger r@[(i - start) * n + j]]
                start <= i < row && 0 <= j < n implies r@[(i - start) * n + j] == denominator_s(
                accs@[j].sample_point,
                xs@[i],
                ys@[i],
            ) by {
                lemma_flat_below(i - start, row - start, n as int, j);
                assert(r@[(i - start) * n + j] == r0[(i - start) * n + j]);
            }
        }
        proof {
            assert((row + 1 - start) * n == base + n) by (nonlinear_arith)
                requires
                    base == (row - start) * n,
            ;
            assert forall|i: int, k: int|
                #![trigger r@[(i - start) * n + k]]
                start <= i < row + 1 && 0 <= k < n implies r@[(i - start) * n + k]
                == denominator_s(accs@[k].sample_point, xs@[i], ys@[i]) by {
                if i == row {
                    assert((i - start) * n + k == base + k);
                }
            }
        }
    }
    r
}

proof fn lemma_flat_below(i: int, row: int, n: int, j: int)
    requires
        0 <= i < row,
        0 <= j < n,
    ensures
        0 <= i * n + j < row * n,
{
    assert(i * n + j < row * n) by (nonlinear_arith)
        requires
            0 <= i,
            i + 1 <= row,
            0 <= j < n,
    ;
    assert(0 <= i * n) by (nonlinear_arith)
        requires
            0 <= i,
            0 <= n,
    ;
}

/// A row can be lifted from numerators that fit.
proof fn lemma_row_in_numerators(
    acc: AccumulatedNumerators,
    log_size: nat,
    rows: int,
    row: int,
)
    requires
        acc.fits_rows(log_size, rows),
        0 <= row < rows,
        row < pow2(log_size),
    ensures
        0 <= lifted_row(row, acc.log_ratio(log_size)) < acc.partial_numerators_acc.len_s(),
{
    let m = choose|m: nat|
        m <= log_size && acc.partial_numerators_acc.len_s() == #[trigger] pow2(m);
    lemma2_to64();
    if m == 0 {
        assert(row == 0);
        lemma_pow2_pos(log_size);
        vstd::arithmetic::div_mod::lemma_basic_div(0, 2 * pow2(log_size) as int);
    } else {
        lemma_lifted_row(row, log_size, m);
    }
}

/// The quotient of one row, given the inverses of its denominators.
fn combine_row(
    accs: &Vec<AccumulatedNumerators>,
    ratios: &Vec<u32>,
    inverses: &Vec<CM31>,
    base: usize,
    row: usize,
    y: M31,
    Ghost(log_size): Ghost<nat>,
    Ghost(rows): Ghost<int>,
    Ghost(x): Ghost<M31>,
) -> (r: QM31)
    requires
        row <= u32::MAX,
        row < rows,
        row < pow2(log_size),
        ratios.len() == accs.len(),
        base + accs.len() <= inverses.len(),
        forall|k: int| 0 <= k < accs.len() ==> (#[trigger] accs@[k]).fits_rows(log_size, rows),
        forall|k: int|
            0 <= k < accs.len() ==> #[trigger] ratios@[k] == accs@[k].log_ratio(log_size),
        forall|k: int|
            0 <= k < accs.len() ==> #[trigger] inverses@[base + k] == inv_of(
                denominator_s(accs@[k].sample_point, x, y),
            ),
    ensures
        r == row_quotient(accs@, log_size, row as int, x, y, accs.len() as nat),
{
    let mut quotient = QM31::zero();
    let n: usize = accs.len();
    for k in 0..n
        invariant
            n == accs.len(),
            row <= u32::MAX,
            row < rows,
            row < pow2(log_size),
            ratios.len() == accs.len(),
            base + accs.len() <= inverses.len(),
            forall|i: int|
                0 <= i < accs.len() ==> (#[trigger] accs@[i]).fits_rows(log_size, rows),
            forall|i: int|
                0 <= i < accs.len() ==> #[trigger] ratios@[i] == accs@[i].log_ratio(log_size),
            forall|i: int|
                0 <= i < accs.len() ==> #[trigger] inverses@[base + i] == inv_of(
                    denominator_s(accs@[i].sample_point, x, y),
                ),
            quotient == row_quotient(accs@, log_size, row as int, x, y, k as nat),
    {
        let acc = &accs[k];
        proof {
            assert(accs@[k as int].fits_rows(log_size, rows));
            lemma_row_in_numerators(*acc, log_size, rows, row as int);
            assert(inverses@[base + k] == inv_of(
                denominator_s(accs@[k as int].sample_point, x, y),
            ));
        }
        let lifted: usize = lift_row(row, ratios[k]);
        let numerator = acc.partial_numerators_acc.at(lifted).sub(
            acc.first_linear_term_acc.mul_m31(y),
        );
        quotient = quotient.add(numerator.mul_cm31(inverses[base + k]));
    }
    quotient
}

/// The quotients of the first `n_rows` rows, given the coordinates of the rows.
pub fn combine_rows(
    accs: &Vec<AccumulatedNumerators>,
    log_size: u32,
    n_rows: usize,
    xs: &[M31],
    ys: &[M31],
) -> (r: SecureColumnByCoords)
    requires
        n_rows <= u32::MAX,
        n_rows <= pow2(log_size as nat),
        n_rows <= xs.len(),
        n_rows <= ys.len(),
        forall|k: int| 0 <= k < accs.len() ==> (#[trigger] accs@[k]).fits_rows(
                log_size as nat,
                n_rows as int,
            ),
        no_row_pole(accs@, xs@, ys@, n_rows as int),
    ensures
        r.wf(),
        r.elements() == row_quotients(accs@, log_size as nat, xs@, ys@, n_rows as nat),
{
    let ratios = log_ratios(accs, log_size, Ghost(n_rows as int));
    let n: usize = accs.len();
    let ghost lg = log_size as nat;
    let ghost out = row_quotients(accs@, lg, xs@, ys@, n_rows as nat);
    let mut r = SecureColumnByCoords::new_empty();
    let mut start: usize = 0;
    while start < n_rows
        invariant
            start <= n_rows,
            lg == log_size,
            n_rows <= u32::MAX,
            n_rows <= pow2(lg),
            n_rows <= xs.len(),
            n_rows <= ys.len(),
            n == accs.len(),
            ratios.len() == n,
            forall|k: int| 0 <= k < accs.len() ==> (#[trigger] accs@[k]).fits_rows(
                    lg,
                    n_rows as int,
                ),
            forall|k: int|
                0 <= k < accs.len() ==> #[trigger] ratios@[k] == accs@[k].log_ratio(lg),
            no_row_pole(accs@, xs@, ys@, n_rows as int),
            out == row_quotients(accs@, lg, xs@, ys@, n_rows as nat),
            r.wf(),
            r.elements() == out.take(start as int),
        decreases n_rows - start,
    {
        let end: usize = if n_rows - start > CHUNK_ROWS {
            start + CHUNK_ROWS
        } else {
            n_rows
        };
        let dens = chunk_denominators(accs, xs, ys, start, end);
        proof {
            lemma_chunk_nonzero(accs@, xs@, ys@, n_rows as int, start as int, end as int, dens@);
        }
        let inverses = batch_inverse(&dens);
        let mut base: usize = 0;
        assert(0 * n == 0);
        for row in start..end
            invariant
                start <= row <= end,
                end <= n_rows,
                lg == log_size,
                n_rows <= u32::MAX,
                n_rows <= pow2(lg),
                n_rows <= xs.len(),
                n_rows <= ys.len(),
                n == accs.len(),
                ratios.len() == n,
                dens.len() == (end - start) * n,
                inverses.len() == dens.len(),
                base == (row - start) * n,
                forall|k: int| 0 <= k < accs.len() ==> (#[trigger] accs@[k]).fits_rows(
                    lg,
                    n_rows as int,
                ),
                forall|k: int|
                    0 <= k < accs.len() ==> #[trigger] ratios@[k] == accs@[k].log_ratio(lg),
                forall|i: int|
                    0 <= i < dens.len() ==> dens@[i].times(#[trigger] inverses@[i])
                        == CM31::one_el() && inverses@[i].canon() == inverses@[i],
                forall|i: int, k: int|
                    #![trigger dens@[(i - start) * n + k]]
                    start <= i < end && 0 <= k < n ==> dens@[(i - start) * n + k]
                        == denominator_s(accs@[k].sample_point, xs@[i], ys@[i]),
                out == row_quotients(accs@, lg, xs@, ys@, n_rows as nat),
                r.wf(),
                r.elements() == out.take(row as int),
        {
            proof {
                assert((row + 1 - start) * n == base + n) by (nonlinear_arith)
                    requires
                        base == (row - start) * n,
                ;
                assert((row + 1 - start) * n <= (end - start) * n) by (nonlinear_arith)
                    requires
                        row + 1 <= end,
                        n >= 0,
                ;
                assert forall|k: int| 0 <= k < n implies #[trigger] inverses@[base + k] == inv_of(
                    denominator_s(accs@[k].sample_point, xs@[row as int], ys@[row as int]),
                ) by {
                    assert(dens@[(row - start) * n + k] == denominator_s(
                        accs@[k].sample_point,
                        xs@[row as int],
                        ys@[row as int],
                    ));
                    lemma_inv_of(dens@[base + k], inverses@[base + k]);
                }
            }
            let q = combine_row(
                accs,
                &ratios,
                &inverses,
                base,
                row,
                ys[row],
                Ghost(lg),
                Ghost(n_rows as int),
                Ghost(xs@[row as int]),
            );
            r.push(q);
            base = base + n;
            assert(r.elements() =~= out.take(row + 1));
        }
        start = end;
    }
    assert(out.take(start as int) =~= out);
    r
}

proof fn lemma_chunk_nonzero(
    accs: Seq<AccumulatedNumerators>,
    xs: Seq<M31>,
    ys: Seq<M31>,
    rows: int,
    start: int,
    end: int,
    dens: Seq<CM31>,
)
    requires
        0 <= start <= end <= rows,
        no_row_pole(accs, xs, ys, rows),
        dens.len() == (end - start) * accs.len(),
        forall|row: int, k: int|
            #![trigger dens[(row - start) * accs.len() + k]]
            start <= row < end && 0 <= k < accs.len() ==> dens[(row - start) * accs.len() + k]
                == denominator_s(accs[k].sample_point, xs[row], ys[row]),
    ensures
        forall|i: int| 0 <= i < dens.len() ==> (#[trigger] dens[i]).canon() != CM31::zero_el(),
{
    let n = accs.len() as int;
    assert forall|i: int| 0 <= i < dens.len() implies (#[trigger] dens[i]).canon()
        != CM31::zero_el() by {
        assert(n > 0) by (nonlinear_arith)
            requires
                0 <= i < (end - start) * n,
                n >= 0,
        ;
        let q = i / n;
        let k = i % n;
        vstd::arithmetic::div_mod::lemma_fundamental_div_mod(i, n);
        assert(0 <= q < end - start) by (nonlinear_arith)
            requires
                0 <= i < (end - start) * n,
                n > 0,
                q == i / n,
        ;
        assert(n * q == q * n) by (nonlinear_arith);
        let row = start + q;
        assert(dens[(row - start) * n + k] == denominator_s(
            accs[k].sample_point,
            xs[row],
            ys[row],
        ));
    }
}

// ---------------------------------------------------------------------------------------------
// Extension from the subdomain to the whole domain.

/// A layer of the subdomain is the beginning of a layer of the domain.
proof fn lemma_sub_layer(half: Coset, parts: nat, m: int, h: int)
    requires
        half.wf(),
        parts <= half.log_size,
        0 <= m < half.log_size - parts,
        0 <= h < pow2(m as nat),
    ensures
        layer_twiddle(
            coset_s(half.initial_index.0 as int, (half.log_size - parts) as nat),
            m,
            h,
        ) == layer_twiddle(half, m + parts, h),
        h < pow2((m + parts) as nat),
{
    let l = half.log_size as nat;
    let l2 = (l - parts) as nat;
    let sub = coset_s(half.initial_index.0 as int, l2);
    lemma_sub_wf(half, parts);
    let d = (l2 - 1 - m) as nat;
    let mm = m as nat;
    let k = bit_rev(h, mm);
    let big = bit_rev(h, mm + parts);
    lemma_bit_rev_range(h, mm);
    lemma_bit_rev_split(h, 0, mm, parts);
    crate::utils::lemma_bit_rev_zero(parts);
    assert(pow2(mm) * 0 == 0);
    assert(big == k * pow2(parts));
    lemma_pow2_le(mm, mm + parts);
    assert(big >= 0) by (nonlinear_arith)
        requires
            big == k * pow2(parts),
            k >= 0,
    ;
    lemma_doubled_at(sub, d, k);
    lemma_doubled_at(half, d, big);
    let s = subgroup_step(l) as int;
    let s2 = subgroup_step(l2) as int;
    lemma_pow2_adds((31 - l) as nat, parts);
    assert((31 - l) + parts == 31 - l2);
    assert(k * s2 == big * s) by (nonlinear_arith)
        requires
            s2 == s * pow2(parts),
            big == k * pow2(parts),
    ;
    assert(l - 1 - (m + parts) == d);
}

pub proof fn lemma_sub_wf(half: Coset, parts: nat)
    requires
        half.wf(),
        parts <= half.log_size,
    ensures
        coset_s(half.initial_index.0 as int, (half.log_size - parts) as nat).wf(),
{
    let l2 = (half.log_size - parts) as nat;
    vstd::arithmetic::div_mod::lemma_mod_bound(
        subgroup_step(l2) as int,
        circle_order() as int,
    );
}

/// The twiddles of the subdomain with every `2^log_parts`-th point of a domain, taken from those
/// of a tree that covers the domain.
#[verifier::rlimit(60)]
#[verifier::spinoff_prover]
pub fn extract_subdomain_twiddles(tree: &TwiddleTree, half_coset: Coset, log_parts: u32) -> (r:
    TwiddleTree)
    requires
        tree.wf(),
        half_coset.wf(),
        half_coset.doubling_of_s(tree.root_coset),
        log_parts <= half_coset.log_size,
    ensures
        r.wf(),
        r.root_coset == coset_s(
            half_coset.initial_index.0 as int,
            (half_coset.log_size - log_parts) as nat,
        ),
{
    let log: u32 = half_coset.log_size - log_parts;
    let root = Coset::new(half_coset.initial_index, log);
    let big: u32 = tree.root_coset.log_size;
    let total: usize = tree.twiddles.len();
    let mut twiddles: Vec<M31> = Vec::new();
    let mut itwiddles: Vec<M31> = Vec::new();
    let mut m: u32 = log;
    let ghost lg = log as nat;
    assert(pow2(lg) - pow2(log as nat) == 0);
    while m > 0
        invariant
            m <= log,
            lg == log,
            log + log_parts == half_coset.log_size,
            half_coset.wf(),
            half_coset.log_size <= big,
            big == tree.root_coset.log_size,
            big <= 31,
            tree.wf(),
            half_coset.doubling_of_s(tree.root_coset),
            total == tree.twiddles.len(),
            total == pow2(big as nat),
            root == coset_s(half_coset.initial_index.0 as int, lg),
            twiddles.len() == pow2(lg) - pow2(m as nat),
            itwiddles.len() == twiddles.len(),
            forall|q: int, h: int|
                #![trigger layer_twiddle(root, q, h)]
                m <= q < log && 0 <= h < pow2(q as nat) ==> twiddles@[tower_index(lg, q, h)]
                    == layer_twiddle(root, q, h),
            forall|k: int|
                0 <= k < twiddles.len() ==> twiddles@[k].times(#[trigger] itwiddles@[k])
                    == M31::one_el() && itwiddles@[k].canon() == itwiddles@[k],
        decreases m,
    {
        let ghost m0 = m;
        m = m - 1;
        proof {
            lemma_pow2_le((m + 1) as nat, lg);
            lemma_pow2_double((m + 1) as nat);
            lemma_pow2_le((m + log_parts + 1) as nat, big as nat);
            lemma_pow2_le(m as nat, (m + log_parts) as nat);
            lemma_pow2_double((m + log_parts + 1) as nat);
        }
        let size: usize = pow2_usize(m);
        let offset: usize = total - pow2_usize(m + log_parts + 1);
        let ghost start = twiddles.len();
        assert(start == pow2(lg) - 2 * pow2(m as nat));
        for h in 0..size
            invariant
                m < log,
                m0 == m + 1,
                lg == log,
                log + log_parts == half_coset.log_size,
                half_coset.wf(),
                half_coset.log_size <= big,
                big == tree.root_coset.log_size,
                big <= 31,
                tree.wf(),
                half_coset.doubling_of_s(tree.root_coset),
                total == tree.twiddles.len(),
                total == pow2(big as nat),
                root == coset_s(half_coset.initial_index.0 as int, lg),
                size == pow2(m as nat),
                size <= pow2((m + log_parts) as nat),
                offset == total - 2 * pow2((m + log_parts) as nat),
                2 * pow2((m + log_parts) as nat) <= total,
                pow2((m + 1) as nat) == 2 * size,
                pow2((m + log_parts + 1) as nat) == 2 * pow2((m + log_parts) as nat),
                start == pow2(lg) - 2 * size,
                start >= 0,
                twiddles.len() == start + h,
                itwiddles.len() == twiddles.len(),
                forall|q: int, i: int|
                    #![trigger layer_twiddle(root, q, i)]
                    m0 <= q < log && 0 <= i < pow2(q as nat) ==> twiddles@[tower_index(lg, q, i)]
                        == layer_twiddle(root, q, i),
                forall|i: int|
                    0 <= i < h ==> twiddles@[start + i] == #[trigger] layer_twiddle(
                        root,
                        m as int,
                        i,
                    ),
                forall|k: int|
                    0 <= k < twiddles.len() ==> twiddles@[k].times(#[trigger] itwiddles@[k])
                        == M31::one_el() && itwiddles@[k].canon() == itwiddles@[k],
        {
            let ghost t0 = twiddles@;
            let ghost i0 = itwiddles@;
            proof {
                lemma_sub_layer(half_coset, log_parts as nat, m as int, h as int);
                lemma_layer_of_root(tree.root_coset, half_coset, m + log_parts, h as int);
                let idx = tower_index(big as nat, m + log_parts, h as int);
                assert(idx == offset + h);
                assert(tree.twiddles@[idx] == layer_twiddle(
                    tree.root_coset,
                    m + log_parts,
                    h as int,
                ));
                assert(tree.twiddles@[offset + h].times(tree.itwiddles@[offset + h])
                    == M31::one_el());
            }
            twiddles.push(tree.twiddles[offset + h]);
            itwiddles.push(tree.itwiddles[offset + h]);
            proof {
                assert forall|q: int, i: int|
                    #![trigger layer_twiddle(root, q, i)]
                    m0 <= q < log && 0 <= i < pow2(q as nat) implies twiddles@[tower_index(
                    lg,
                    q,
                    i,
                )] == layer_twiddle(root, q, i) by {
                    lemma_pow2_double((q + 1) as nat);
                    lemma_pow2_le((m0 + 1) as nat, (q + 1) as nat);
                    lemma_pow2_double((m0 + 1) as nat);
                    lemma_pow2_le((q + 1) as nat, lg);
                    assert(twiddles@[tower_index(lg, q, i)] == t0[tower_index(lg, q, i)]);
                }
                assert forall|k: int| 0 <= k < twiddles.len() implies twiddles@[k].times(
                    #[trigger] itwiddles@[k],
                ) == M31::one_el() && itwiddles@[k].canon() == itwiddles@[k] by {
                    if k < t0.len() {
                        assert(t0[k].times(i0[k]) == M31::one_el());
                    }
                }
            }
        }
        proof {
            assert forall|q: int, h: int|
                #![trigger layer_twiddle(root, q, h)]
                m <= q < log && 0 <= h < pow2(q as nat) implies twiddles@[tower_index(lg, q, h)]
                == layer_twiddle(root, q, h) by {
                if q == m {
                    assert(tower_index(lg, q, h) == start + h);
                }
            }
        }
    }
    proof {
        lemma2_to64();
        lemma_pow2_pos(lg);
    }
    let ghost t0 = twiddles@;
    let ghost i0 = itwiddles@;
    twiddles.push(M31(1));
    itwiddles.push(M31(1));
    proof {
        assert forall|q: int, h: int|
            #![trigger layer_twiddle(root, q, h)]
            0 <= q < log && 0 <= h < pow2(q as nat) implies twiddles@[tower_index(lg, q, h)]
            == layer_twiddle(root, q, h) by {
            lemma_pow2_double((q + 1) as nat);
            lemma_pow2_le((q + 1) as nat, lg);
            assert(twiddles@[tower_index(lg, q, h)] == t0[tower_index(lg, q, h)]);
        }
        assert forall|k: int| 0 <= k < twiddles.len() implies twiddles@[k].times(
            #[trigger] itwiddles@[k],
        ) == M31::one_el() && itwiddles@[k].canon() == itwiddles@[k] by {
            if k < t0.len() {
                assert(t0[k].times(i0[k]) == M31::one_el());
            } else {
                M31::law_mul_one(M31::one_el());
                M31::law_canon_results(M31::one_el(), M31::one_el());
            }
        }
    }
    TwiddleTree { root_coset: root, twiddles, itwiddles }
}

/// The layers of a doubling of the root are layers of the root.
proof fn lemma_layer_of_root(root: Coset, half: Coset, m: int, h: int)
    requires
        root.wf(),
        half.wf(),
        half.doubling_of_s(root),
        0 <= m < half.log_size,
    ensures
        layer_twiddle(half, m, h) == layer_twiddle(root, m, h),
{
    lemma_same_doubling(
        root,
        half,
        (half.log_size - 1 - m) as nat,
        (root.log_size - 1 - m) as nat,
    );
}

/// Whether `out` holds, on the whole domain, the values of the polynomial whose values on the
/// subdomain are given.
pub open spec fn extends_column(
    subdomain: CircleDomain,
    values: Seq<M31>,
    domain: CircleDomain,
    out: Seq<M31>,
) -> bool {
    exists|from: CircleEvaluation, c: Seq<M31>, to: CircleEvaluation|
        #![trigger interpolates(from, c), evaluates(c, subdomain.log_size_s(), to)]
        {
            &&& from.domain == subdomain
            &&& from.values@ == values
            &&& to.domain == domain
            &&& to.values@ == out
            &&& interpolates(from, c)
            &&& evaluates(c, subdomain.log_size_s(), to)
        }
}

fn extend_coordinate(
    values: Vec<M31>,
    subdomain: CircleDomain,
    domain: CircleDomain,
    subdomain_twiddles: &TwiddleTree,
    twiddles: &TwiddleTree,
) -> (r: Vec<M31>)
    requires
        subdomain.wf(),
        domain.wf(),
        values.len() == subdomain.size_s(),
        subdomain_twiddles.wf(),
        twiddles.wf(),
        subdomain_twiddles.root_coset == subdomain.half_coset,
        domain.half_coset.doubling_of_s(twiddles.root_coset),
        subdomain.log_size_s() <= domain.log_size_s() <= 30,
        subdomain.half_coset.log_size <= 1 ==> subdomain.half_coset.initial.y.canon()
            != M31::zero_el(),
    ensures
        r.len() == domain.size_s(),
        extends_column(subdomain, values@, domain, r@),
{
    let from = CircleEvaluation { domain: subdomain, values };
    let ghost g = from;
    proof {
        let h = subdomain.half_coset;
        lemma2_to64();
        assert(pow2(0) * h.initial_index.0 == h.initial_index.0);
        vstd::arithmetic::div_mod::lemma_small_mod(h.initial_index.0 as nat, circle_order());
        crate::circle::lemma_coset_canonical(h);
        assert(h.repeated_double_s(0) == h);
    }
    let poly = interpolate(from, subdomain_twiddles);
    let to = evaluate(&poly, domain, twiddles);
    assert(interpolates(g, poly.coeffs@) && evaluates(
        poly.coeffs@,
        subdomain.log_size_s(),
        to,
    ));
    to.values
}

/// Interpolates quotients on the subdomain and evaluates them on the whole domain, coordinate by
/// coordinate.
pub fn extend_quotients(
    quotients: SecureColumnByCoords,
    eval_subdomain: CircleDomain,
    eval_domain: CircleDomain,
    twiddles: &TwiddleTree,
) -> (r: SecureEvaluation)
    requires
        eval_domain.wf(),
        quotients.wf(),
        twiddles.wf(),
        eval_domain.log_size_s() <= 30,
        eval_domain.half_coset.doubling_of_s(twiddles.root_coset),
        eval_subdomain.half_coset.log_size <= eval_domain.half_coset.log_size,
        eval_subdomain.half_coset == coset_s(
            eval_domain.half_coset.initial_index.0 as int,
            eval_subdomain.half_coset.log_size as nat,
        ),
        quotients.len_s() == eval_subdomain.size_s(),
        eval_subdomain.half_coset.log_size <= 1 ==> eval_domain.half_coset.initial.y.canon()
            != M31::zero_el(),
    ensures
        r.wf(),
        r.domain == eval_domain,
        forall|k: int|
            0 <= k < 4 ==> extends_column(
                eval_subdomain,
                quotients.columns@[k]@,
                eval_domain,
                #[trigger] r.values.columns@[k]@,
            ),
{
    let parts: u32 = eval_domain.half_coset.log_size - eval_subdomain.half_coset.log_size;
    proof {
        lemma_sub_wf(eval_domain.half_coset, parts as nat);
    }
    let sub_twiddles = extract_subdomain_twiddles(twiddles, eval_domain.half_coset, parts);
    let ghost before = quotients.columns@;
    let mut columns = quotients.columns;
    let mut q0: Vec<M31> = Vec::new();
    let mut q1: Vec<M31> = Vec::new();
    let mut q2: Vec<M31> = Vec::new();
    let mut q3: Vec<M31> = Vec::new();
    std::mem::swap(&mut q0, &mut columns[0]);
    std::mem::swap(&mut q1, &mut columns[1]);
    std::mem::swap(&mut q2, &mut columns[2]);
    std::mem::swap(&mut q3, &mut columns[3]);
    assert(q0 == before[0] && q1 == before[1] && q2 == before[2] && q3 == before[3]);
    let c0 = extend_coordinate(q0, eval_subdomain, eval_domain, &sub_twiddles, twiddles);
    let c1 = extend_coordinate(q1, eval_subdomain, eval_domain, &sub_twiddles, twiddles);
    let c2 = extend_coordinate(q2, eval_subdomain, eval_domain, &sub_twiddles, twiddles);
    let c3 = extend_coordinate(q3, eval_subdomain, eval_domain, &sub_twiddles, twiddles);
    SecureEvaluation::new(eval_domain, SecureColumnByCoords { columns: [c0, c1, c2, c3] })
}

/// The coordinates of a domain in bit-reversed order.
pub struct XyColumns {
    pub xs: Vec<M31>,
    pub ys: Vec<M31>,
}

/// The coordinates of a domain in bit-reversed order.
pub fn domain_xy(domain: CircleDomain) -> (r: XyColumns)
    requires
        domain.wf(),
    ensures
        r.xs.len() == domain.size_s(),
        r.ys.len() == domain.size_s(),
        forall|j: int| 0 <= j < r.xs.len() ==> #[trigger] r.xs@[j] == domain.reversed_at(j).x,
        forall|j: int| 0 <= j < r.ys.len() ==> #[trigger] r.ys@[j] == domain.reversed_at(j).y,
{
    let n: usize = domain.size();
    let log_size: u32 = domain.log_size();
    let mut xs: Vec<M31> = Vec::with_capacity(n);
    let mut ys: Vec<M31> = Vec::with_capacity(n);
    for row in 0..n
        invariant
            domain.wf(),
            log_size == domain.log_size_s(),
            n == domain.size_s(),
            xs.len() == row,
            ys.len() == row,
            forall|j: int| 0 <= j < row ==> #[trigger] xs@[j] == domain.reversed_at(j).x,
            forall|j: int| 0 <= j < row ==> #[trigger] ys@[j] == domain.reversed_at(j).y,
    {
        let point = domain.at(bit_reverse_index(row, log_size));
        xs.push(point.x);
        ys.push(point.y);
    }
    XyColumns { xs, ys }
}

/// The subdomain of a canonical domain on which quotients are computed.
pub open spec fn quotient_subdomain(lifting_log_size: nat, log_blowup_factor: nat) -> CircleDomain {
    CircleDomain {
        half_coset: coset_s(
            canonic_domain(lifting_log_size).half_coset.initial_index.0 as int,
            (lifting_log_size - 1 - log_blowup_factor) as nat,
        ),
    }
}

/// The quotients on the rows of a domain.
pub open spec fn domain_quotients(accs: Seq<AccumulatedNumerators>, domain: CircleDomain) -> Seq<
    QM31,
> {
    Seq::new(
        domain.size_s(),
        |row: int|
            row_quotient(
                accs,
                domain.log_size_s(),
                row,
                domain.reversed_at(row).x,
                domain.reversed_at(row).y,
                accs.len(),
            ),
    )
}

/// Whether no sample has a pole on the domain.
pub open spec fn no_domain_pole(accs: Seq<AccumulatedNumerators>, domain: CircleDomain) -> bool {
    forall|row: int, k: int|
        #![trigger denominator_s(
            accs[k].sample_point,
            domain.reversed_at(row).x,
            domain.reversed_at(row).y,
        )]
        0 <= row < domain.size_s() && 0 <= k < accs.len() ==> denominator_s(
            accs[k].sample_point,
            domain.reversed_at(row).x,
            domain.reversed_at(row).y,
        ).canon() != CM31::zero_el()
}

/// Combines the numerators of all samples into quotients on the subdomain, and extends them to
/// the canonical domain of the lifted size.
#[verifier::rlimit(40)]
pub fn compute_quotients_and_combine(
    accumulations: &Vec<AccumulatedNumerators>,
    lifting_log_size: u32,
    log_blowup_factor: u32,
    twiddles: &TwiddleTree,
) -> (r: SecureEvaluation)
    requires
        1 <= lifting_log_size <= 30,
        log_blowup_factor < lifting_log_size,
        twiddles.wf(),
        canonic_domain(lifting_log_size as nat).half_coset.doubling_of_s(twiddles.root_coset),
        forall|k: int|
            0 <= k < accumulations.len() ==> (#[trigger] accumulations@[k]).fits(
                (lifting_log_size - log_blowup_factor) as nat,
            ),
        no_domain_pole(
            accumulations@,
            quotient_subdomain(lifting_log_size as nat, log_blowup_factor as nat),
        ),
    ensures
        r.wf(),
        r.domain == canonic_domain(lifting_log_size as nat),
        exists|q: SecureColumnByCoords|
            {
                &&& q.wf()
                &&& #[trigger] q.elements() == domain_quotients(
                    accumulations@,
                    quotient_subdomain(lifting_log_size as nat, log_blowup_factor as nat),
                )
                &&& forall|k: int|
                    0 <= k < 4 ==> extends_column(
                        quotient_subdomain(lifting_log_size as nat, log_blowup_factor as nat),
                        q.columns@[k]@,
                        canonic_domain(lifting_log_size as nat),
                        #[trigger] r.values.columns@[k]@,
                    )
            },
{
    let eval_domain = CanonicCoset::new(lifting_log_size).circle_domain();
    let (eval_subdomain, _) = eval_domain.split(log_blowup_factor);
    let ghost sub = quotient_subdomain(lifting_log_size as nat, log_blowup_factor as nat);
    assert(eval_subdomain == sub);
    let subdomain_log_size: u32 = eval_subdomain.log_size();
    let n_rows: usize = eval_subdomain.size();
    let xy = domain_xy(eval_subdomain);
    proof {
        lemma_pow2_bound(subdomain_log_size as nat);
        assert forall|k: int| 0 <= k < accumulations@.len() implies (
        #[trigger] accumulations@[k]).fits_rows(subdomain_log_size as nat, n_rows as int) by {
            assert(accumulations@[k].fits((lifting_log_size - log_blowup_factor) as nat));
        }
        assert forall|row: int, k: int|
            #![trigger denominator_s(accumulations@[k].sample_point, xy.xs@[row], xy.ys@[row])]
            0 <= row < n_rows && 0 <= k < accumulations@.len() implies denominator_s(
            accumulations@[k].sample_point,
            xy.xs@[row],
            xy.ys@[row],
        ).canon() != CM31::zero_el() by {
            assert(denominator_s(
                accumulations@[k].sample_point,
                sub.reversed_at(row).x,
                sub.reversed_at(row).y,
            ).canon() != CM31::zero_el());
        }
    }
    let quotients = combine_rows(
        accumulations,
        subdomain_log_size,
        n_rows,
        xy.xs.as_slice(),
        xy.ys.as_slice(),
    );
    assert(quotients.elements() =~= domain_quotients(accumulations@, sub));
    proof {
        lemma_canonic_initial_y(lifting_log_size as nat);
        assert(quotients.elements().len() == n_rows);
    }
    let ghost q = quotients;
    let r = extend_quotients(quotients, eval_subdomain, eval_domain, twiddles);
    assert(q.wf() && q.elements() == domain_quotients(accumulations@, sub));
    r
}

proof fn lemma_canonic_initial_y(n: nat)
    requires
        0 < n <= 30,
    ensures
        canonic_domain(n).half_coset.initial.y.canon() != M31::zero_el(),
{
    let h = canonic_domain(n).half_coset;
    let l = (n - 1) as nat;
    lemma_canonic_domain_wf(n);
    crate::fri::lemma_canonic_foldable(n);
    crate::utils::lemma_bit_rev_zero(l);
    lemma_pow2_pos(l);
    assert(crate::fri::pair_ys(h)[0] == h.at_s(0).y);
    assert(0 * subgroup_step(l) == 0);
    assert(h.at_s(0) == h.initial);
}

} // verus!
