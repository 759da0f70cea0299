//! Evaluation of constraints on the rows of an evaluation domain.

use vstd::arithmetic::power2::pow2;
use vstd::prelude::*;

use crate::fields::m31::M31;
use crate::fields::qm31::QM31;
use crate::fields::{lemma_canon_both, lemma_inv_of, Field};
use crate::framework::evaluator::{batch_count, smaller, Fraction};
use crate::framework::expr::from_coords;
use crate::framework::finalize::lemma_batches;
use crate::framework::fractions::{
    cross_sum, denominators, lemma_sum_over_common_denominator,
};
use crate::framework::logup::{even_share, lemma_size_nonzero};
use crate::framework::packed::{
    PackedQM31, VeryPackedBaseField, VeryPackedSecureField, BATCH_ROWS,
};
use crate::framework::rows::{offset_bit_reversed_circle_domain_index, offset_row};
use crate::framework::{INTERACTION_TRACE_IDX, MAX_N_INTERACTIONS};
use crate::poly::circle_poly::CircleEvaluation;
use crate::utils::{lemma_pow2_bound, pow2_usize};

verus! {

/// The columns of every tree, on one evaluation domain.
pub type TraceColumns<'a> = Vec<Vec<&'a CircleEvaluation>>;

/// The row that a mask with an offset reads.
pub open spec fn mask_row(row: int, domain_log: nat, eval_log: nat, offset: int) -> int {
    if offset == 0 {
        row
    } else {
        offset_row(row, domain_log, eval_log, offset)
    }
}

/// What a mask reads.
pub open spec fn mask_value(
    trace: Seq<Vec<&CircleEvaluation>>,
    interaction: int,
    column: int,
    row: int,
    domain_log: nat,
    eval_log: nat,
    offset: int,
) -> M31 {
    trace[interaction]@[column].values@[mask_row(row, domain_log, eval_log, offset)]
}

/// Every column covers the evaluation domain.
pub open spec fn covers(trace: Seq<Vec<&CircleEvaluation>>, eval_log: nat) -> bool {
    forall|t: int, c: int|
        0 <= t < trace.len() && 0 <= c < (#[trigger] trace[t])@.len() ==> pow2(eval_log) <= (
        #[trigger] trace[t]@[c]).values@.len()
}

/// One value that a mask reads.
pub fn read_mask(
    trace: &TraceColumns<'_>,
    interaction: usize,
    column: usize,
    row: usize,
    domain_log: u32,
    eval_log: u32,
    offset: isize,
) -> (r: M31)
    requires
        domain_log <= eval_log <= 31,
        offset != 0 ==> domain_log < eval_log,
        row < pow2(eval_log as nat),
        covers(trace@, eval_log as nat),
        interaction < trace@.len(),
        column < trace@[interaction as int]@.len(),
    ensures
        r == mask_value(
            trace@,
            interaction as int,
            column as int,
            row as int,
            domain_log as nat,
            eval_log as nat,
            offset as int,
        ),
{
    let at = if offset == 0 {
        row
    } else {
        offset_bit_reversed_circle_domain_index(row, domain_log, eval_log, offset)
    };
    assert(pow2(eval_log as nat) <= trace@[interaction as int]@[column as int].values@.len());
    trace[interaction][column].values[at]
}

/// The lookup side of rows being evaluated.
pub struct LogupAtRow<EF> {
    pub interaction: usize,
    pub claimed_sum: QM31,
    pub cumsum_shift: QM31,
    pub fracs: Vec<Fraction<EF, EF>>,
    pub is_finalized: bool,
    pub log_size: u32,
}

impl<EF> LogupAtRow<EF> {
    pub fn new(interaction: usize, claimed_sum: QM31, log_size: u32) -> (r: LogupAtRow<EF>)
        requires
            log_size <= 30,
        ensures
            r.interaction == interaction,
            r.claimed_sum == claimed_sum,
            r.cumsum_shift == even_share(claimed_sum, log_size as nat),
            r.fracs@.len() == 0,
            r.is_finalized,
            r.log_size == log_size,
    {
        proof {
            lemma_pow2_bound(log_size as nat);
            lemma_size_nonzero(log_size as nat);
        }
        let size = M31::from_u32_unchecked(pow2_usize(log_size) as u32);
        let inverse = size.inverse();
        proof {
            lemma_inv_of(size, inverse);
        }
        LogupAtRow {
            interaction,
            claimed_sum,
            cumsum_shift: claimed_sum.mul_m31(inverse),
            fracs: Vec::new(),
            is_finalized: true,
            log_size,
        }
    }
}

/// `a/b + c/d = (d*a + b*c) / (b*d)`.
pub open spec fn fraction_sum(a: Fraction<QM31, QM31>, b: Fraction<QM31, QM31>) -> Fraction<
    QM31,
    QM31,
> {
    Fraction {
        numerator: b.denominator.times(a.numerator).plus(a.denominator.times(b.numerator)),
        denominator: a.denominator.times(b.denominator),
    }
}

/// The sum of the fractions `from .. to`, of which there is at least one.
pub open spec fn range_sum(fracs: Seq<Fraction<QM31, QM31>>, from: int, to: int) -> Fraction<
    QM31,
    QM31,
>
    decreases to - from,
{
    if to <= from + 1 {
        fracs[from]
    } else {
        fraction_sum(range_sum(fracs, from, to - 1), fracs[to - 1])
    }
}

/// The value of the `i`-th lookup constraint at a row. `column(j, offset)` is the value of the
/// `j`-th lookup column.
pub open spec fn lookup_constraint(
    fracs: Seq<Fraction<QM31, QM31>>,
    column: spec_fn(int, int) -> QM31,
    shift: QM31,
    i: int,
    size: nat,
) -> QM31 {
    let n = fracs.len();
    let sum = range_sum(fracs, i * size, smaller((i + 1) * size, n as int));
    let before = if i == 0 {
        QM31::zero_el()
    } else {
        column(i - 1, 0)
    };
    let step = if i + 1 < batch_count(n, size) {
        column(i, 0).minus(before)
    } else {
        column(i, 0).minus(column(i, -1)).minus(before).plus(shift)
    };
    step.times(sum.denominator).minus(sum.numerator)
}

/// The values of constraints, weighted by the powers from `start` on, added to a result.
pub open spec fn weighted_sum(
    result: QM31,
    powers: spec_fn(int) -> QM31,
    start: int,
    values: spec_fn(int) -> QM31,
    n: nat,
) -> QM31
    decreases n,
{
    if n == 0 {
        result
    } else {
        weighted_sum(result, powers, start, values, (n - 1) as nat).plus(
            powers(start + n - 1).times(values(n - 1)),
        )
    }
}

/// The fractions of one lane.
pub open spec fn lane_fracs(
    fracs: Seq<Fraction<VeryPackedSecureField, VeryPackedSecureField>>,
    k: int,
) -> Seq<Fraction<QM31, QM31>> {
    fracs.map_values(
        |f: Fraction<VeryPackedSecureField, VeryPackedSecureField>|
            Fraction { numerator: f.numerator.lane(k), denominator: f.denominator.lane(k) },
    )
}

/// Evaluates constraints at consecutive rows of the evaluation domain, one row in each lane.
pub struct BatchCpuDomainEvaluator<'a> {
    pub trace_eval: &'a TraceColumns<'a>,
    pub column_index_per_interaction: [usize; 4],
    /// The first row; lane `k` evaluates row `row + k`.
    pub row: usize,
    /// The powers of the random coefficient, in every lane.
    pub random_coeff_powers: &'a [VeryPackedSecureField],
    pub row_res: VeryPackedSecureField,
    pub constraint_index: usize,
    pub domain_log_size: u32,
    pub eval_domain_log_size: u32,
    pub logup: LogupAtRow<VeryPackedSecureField>,
}

impl<'a> BatchCpuDomainEvaluator<'a> {
    pub open spec fn wf(self) -> bool {
        &&& self.domain_log_size <= self.eval_domain_log_size <= 31
        &&& self.row + 32 <= pow2(self.eval_domain_log_size as nat)
        &&& self.trace_eval@.len() <= 4
        &&& covers(self.trace_eval@, self.eval_domain_log_size as nat)
    }

    /// Whether the offsets can be read: the domain is larger than the trace, or none is a shift.
    pub open spec fn can_read(self, offsets: Seq<isize>) -> bool {
        self.domain_log_size < self.eval_domain_log_size || forall|i: int|
            0 <= i < offsets.len() ==> #[trigger] offsets[i] == 0
    }

    /// What a mask reads in a lane.
    pub open spec fn lane_mask(self, interaction: int, column: int, offset: int, k: int) -> M31 {
        mask_value(
            self.trace_eval@,
            interaction,
            column,
            self.row + k,
            self.domain_log_size as nat,
            self.eval_domain_log_size as nat,
            offset,
        )
    }

    /// What the mask of a secure column reads in a lane.
    pub open spec fn lane_secure_mask(
        self,
        interaction: int,
        first: int,
        offset: int,
        k: int,
    ) -> QM31 {
        from_coords(
            self.lane_mask(interaction, first, offset, k),
            self.lane_mask(interaction, first + 1, offset, k),
            self.lane_mask(interaction, first + 2, offset, k),
            self.lane_mask(interaction, first + 3, offset, k),
        )
    }

    /// The powers in a lane.
    pub open spec fn lane_powers(self, k: int) -> spec_fn(int) -> QM31 {
        |i: int| self.random_coeff_powers@[i].lane(k)
    }

    /// What every evaluation leaves as it is.
    pub open spec fn same_rows(self, other: BatchCpuDomainEvaluator<'_>) -> bool {
        &&& self.trace_eval@ == other.trace_eval@
        &&& self.row == other.row
        &&& self.random_coeff_powers@ == other.random_coeff_powers@
        &&& self.domain_log_size == other.domain_log_size
        &&& self.eval_domain_log_size == other.eval_domain_log_size
    }

    /// The powers of the random coefficient, each in every lane.
    pub fn broadcast_random_coeff_powers(random_coeff_powers: &[QM31]) -> (r: Vec<
        VeryPackedSecureField,
    >)
        ensures
            r@.len() == random_coeff_powers@.len(),
            forall|i: int, k: int|
                0 <= i < r@.len() && 0 <= k < 32 ==> #[trigger] r@[i].lane(k)
                    == random_coeff_powers@[i],
    {
        let mut r: Vec<VeryPackedSecureField> = Vec::new();
        let mut i: usize = 0;
        while i < random_coeff_powers.len()
            invariant
                i <= random_coeff_powers@.len(),
                r@.len() == i,
                forall|j: int, k: int|
                    0 <= j < i && 0 <= k < 32 ==> #[trigger] r@[j].lane(k)
                        == random_coeff_powers@[j],
            decreases random_coeff_powers@.len() - i,
        {
            r.push(VeryPackedSecureField::broadcast(random_coeff_powers[i]));
            i += 1;
        }
        r
    }

    pub fn new(
        trace_eval: &'a TraceColumns<'a>,
        row: usize,
        random_coeff_powers: &'a [VeryPackedSecureField],
        domain_log_size: u32,
        eval_log_size: u32,
        log_size: u32,
        claimed_sum: QM31,
    ) -> (r: BatchCpuDomainEvaluator<'a>)
        requires
            trace_eval@.len() <= MAX_N_INTERACTIONS,
            log_size <= 30,
        ensures
            r.trace_eval@ == trace_eval@,
            r.row == row,
            r.random_coeff_powers@ == random_coeff_powers@,
            r.domain_log_size == domain_log_size,
            r.eval_domain_log_size == eval_log_size,
            r.column_index_per_interaction@ == seq![0usize, 0, 0, 0],
            r.constraint_index == 0,
            forall|k: int| 0 <= k < 32 ==> #[trigger] r.row_res.lane(k) == QM31::zero_el(),
            r.logup.interaction == INTERACTION_TRACE_IDX,
            r.logup.claimed_sum == claimed_sum,
            r.logup.cumsum_shift == even_share(claimed_sum, log_size as nat),
            r.logup.fracs@.len() == 0,
            r.logup.is_finalized,
    {
        let r = BatchCpuDomainEvaluator {
            trace_eval,
            column_index_per_interaction: [0, 0, 0, 0],
            row,
            random_coeff_powers,
            row_res: VeryPackedSecureField::zero(),
            constraint_index: 0,
            domain_log_size,
            eval_domain_log_size: eval_log_size,
            logup: LogupAtRow::new(INTERACTION_TRACE_IDX, claimed_sum, log_size),
        };
        assert(r.column_index_per_interaction@ =~= seq![0usize, 0, 0, 0]);
        r
    }

    /// What the lanes read from a column at an offset.
    pub fn column_at(&self, interaction: usize, column: usize, offset: isize) -> (r:
        VeryPackedBaseField)
        requires
            self.wf(),
            offset != 0 ==> self.domain_log_size < self.eval_domain_log_size,
            interaction < self.trace_eval@.len(),
            column < self.trace_eval@[interaction as int]@.len(),
        ensures
            forall|k: int|
                0 <= k < 32 ==> #[trigger] r.lane(k) == self.lane_mask(
                    interaction as int,
                    column as int,
                    offset as int,
                    k,
                ),
    {
        let mut lanes = [M31(0); 32];
        let mut k: usize = 0;
        while k < BATCH_ROWS
            invariant
                k <= 32,
                self.wf(),
                offset != 0 ==> self.domain_log_size < self.eval_domain_log_size,
                interaction < self.trace_eval@.len(),
                column < self.trace_eval@[interaction as int]@.len(),
                forall|j: int|
                    0 <= j < k ==> #[trigger] lanes@[j] == self.lane_mask(
                        interaction as int,
                        column as int,
                        offset as int,
                        j,
                    ),
            decreases 32 - k,
        {
            proof {
                lemma_pow2_bound(self.eval_domain_log_size as nat);
            }
            lanes[k] =
            read_mask(
                self.trace_eval,
                interaction,
                column,
                self.row + k,
                self.domain_log_size,
                self.eval_domain_log_size,
                offset,
            );
            k += 1;
        }
        VeryPackedBaseField(lanes)
    }

    /// The next column of an interaction, at the given offsets.
    pub fn next_interaction_mask(&mut self, interaction: usize, offsets: &[isize]) -> (r: Vec<
        VeryPackedBaseField,
    >)
        requires
            old(self).wf(),
            old(self).can_read(offsets@),
            interaction < old(self).trace_eval@.len(),
            old(self).column_index_per_interaction@[interaction as int] < old(
                self).trace_eval@[interaction as int]@.len(),
        ensures
            r@.len() == offsets@.len(),
            forall|i: int, k: int|
                0 <= i < r@.len() && 0 <= k < 32 ==> #[trigger] r@[i].lane(k) == old(
                    self).lane_mask(
                    interaction as int,
                    old(self).column_index_per_interaction@[interaction as int] as int,
                    offsets@[i] as int,
                    k,
                ),
            *final(self) == (BatchCpuDomainEvaluator {
                column_index_per_interaction: final(self).column_index_per_interaction,
                ..*old(self)
            }),
            final(self).column_index_per_interaction@ == old(
                self).column_index_per_interaction@.update(
                interaction as int,
                (old(self).column_index_per_interaction@[interaction as int] + 1) as usize,
            ),
    {
        let column = self.column_index_per_interaction[interaction];
        let n_columns = self.trace_eval[interaction].len();
        assert(column < n_columns);
        self.column_index_per_interaction[interaction] = column + 1;
        let mut r: Vec<VeryPackedBaseField> = Vec::new();
        let mut i: usize = 0;
        while i < offsets.len()
            invariant
                i <= offsets@.len(),
                self.wf(),
                self.can_read(offsets@),
                interaction < self.trace_eval@.len(),
                column < self.trace_eval@[interaction as int]@.len(),
                r@.len() == i,
                forall|j: int, k: int|
                    0 <= j < i && 0 <= k < 32 ==> #[trigger] r@[j].lane(k) == self.lane_mask(
                        interaction as int,
                        column as int,
                        offsets@[j] as int,
                        k,
                    ),
            decreases offsets@.len() - i,
        {
            let lanes = self.column_at(interaction, column, offsets[i]);
            r.push(lanes);
            i += 1;
        }
        r
    }

    /// Adds a constraint, weighted by the next power of the random coefficient.
    pub fn add_constraint(&mut self, constraint: VeryPackedSecureField)
        requires
            old(self).constraint_index < old(self).random_coeff_powers@.len(),
        ensures
            forall|k: int|
                0 <= k < 32 ==> #[trigger] final(self).row_res.lane(k) == old(self).row_res.lane(
                    k,
                ).plus(
                    old(self).random_coeff_powers@[old(self).constraint_index as int].lane(
                        k,
                    ).times(constraint.lane(k)),
                ),
            *final(self) == (BatchCpuDomainEvaluator {
                row_res: final(self).row_res,
                constraint_index: (old(self).constraint_index + 1) as usize,
                ..*old(self)
            }),
    {
        let power = self.random_coeff_powers[self.constraint_index];
        self.row_res = self.row_res.add(power.mul(constraint));
        self.constraint_index = self.constraint_index + 1;
    }

    pub fn combine_ef(
        a: VeryPackedBaseField,
        b: VeryPackedBaseField,
        c: VeryPackedBaseField,
        d: VeryPackedBaseField,
    ) -> (r: VeryPackedSecureField)
        ensures
            forall|k: int|
                0 <= k < 32 ==> #[trigger] r.lane(k) == from_coords(
                    a.lane(k),
                    b.lane(k),
                    c.lane(k),
                    d.lane(k),
                ),
    {
        VeryPackedSecureField::from_very_packed_m31s(a, b, c, d)
    }

    /// Adds a fraction to the lookup sum.
    pub fn write_logup_frac(
        &mut self,
        fraction: Fraction<VeryPackedSecureField, VeryPackedSecureField>,
    )
        ensures
            final(self).logup.fracs@ == old(self).logup.fracs@.push(fraction),
            final(self).logup.is_finalized == (old(self).logup.is_finalized && old(
                self).logup.fracs@.len() > 0),
            *final(self) == (BatchCpuDomainEvaluator {
                logup: (LogupAtRow {
                    fracs: final(self).logup.fracs,
                    is_finalized: final(self).logup.is_finalized,
                    ..old(self).logup
                }),
                ..*old(self)
            }),
    {
        if self.logup.fracs.len() == 0 {
            self.logup.is_finalized = false;
        }
        self.logup.fracs.push(fraction);
    }

    /// The next four columns of an interaction as one secure column, at the given offsets.
    pub fn next_extension_interaction_mask(&mut self, interaction: usize, offsets: &[isize]) -> (r:
        Vec<VeryPackedSecureField>)
        requires
            old(self).wf(),
            old(self).can_read(offsets@),
            interaction < old(self).trace_eval@.len(),
            old(self).column_index_per_interaction@[interaction as int] + 4 <= old(
                self).trace_eval@[interaction as int]@.len(),
        ensures
            r@.len() == offsets@.len(),
            forall|i: int, k: int|
                0 <= i < r@.len() && 0 <= k < 32 ==> #[trigger] r@[i].lane(k) == old(
                    self).lane_secure_mask(
                    interaction as int,
                    old(self).column_index_per_interaction@[interaction as int] as int,
                    offsets@[i] as int,
                    k,
                ),
            *final(self) == (BatchCpuDomainEvaluator {
                column_index_per_interaction: final(self).column_index_per_interaction,
                ..*old(self)
            }),
            final(self).column_index_per_interaction@ == old(
                self).column_index_per_interaction@.update(
                interaction as int,
                (old(self).column_index_per_interaction@[interaction as int] + 4) as usize,
            ),
    {
        let ghost first = self.column_index_per_interaction@[interaction as int] as int;
        let ghost start = *self;
        let n_columns = self.trace_eval[interaction].len();
        assert(first + 4 <= n_columns);
        let a = self.next_interaction_mask(interaction, offsets);
        let b = self.next_interaction_mask(interaction, offsets);
        let c = self.next_interaction_mask(interaction, offsets);
        let d = self.next_interaction_mask(interaction, offsets);
        assert(self.column_index_per_interaction@
            =~= start.column_index_per_interaction@.update(
            interaction as int,
            (first + 4) as usize,
        ));
        let mut r: Vec<VeryPackedSecureField> = Vec::new();
        let mut i: usize = 0;
        while i < offsets.len()
            invariant
                i <= offsets@.len(),
                a@.len() == offsets@.len(),
                b@.len() == offsets@.len(),
                c@.len() == offsets@.len(),
                d@.len() == offsets@.len(),
                forall|j: int, k: int|
                    0 <= j < offsets@.len() && 0 <= k < 32 ==> #[trigger] a@[j].lane(k)
                        == start.lane_mask(interaction as int, first, offsets@[j] as int, k),
                forall|j: int, k: int|
                    0 <= j < offsets@.len() && 0 <= k < 32 ==> #[trigger] b@[j].lane(k)
                        == start.lane_mask(interaction as int, first + 1, offsets@[j] as int, k),
                forall|j: int, k: int|
                    0 <= j < offsets@.len() && 0 <= k < 32 ==> #[trigger] c@[j].lane(k)
                        == start.lane_mask(interaction as int, first + 2, offsets@[j] as int, k),
                forall|j: int, k: int|
                    0 <= j < offsets@.len() && 0 <= k < 32 ==> #[trigger] d@[j].lane(k)
                        == start.lane_mask(interaction as int, first + 3, offsets@[j] as int, k),
                r@.len() == i,
                forall|j: int, k: int|
                    0 <= j < i && 0 <= k < 32 ==> #[trigger] r@[j].lane(k)
                        == start.lane_secure_mask(
                        interaction as int,
                        first,
                        offsets@[j] as int,
                        k,
                    ),
            decreases offsets@.len() - i,
        {
            r.push(BatchCpuDomainEvaluator::combine_ef(a[i], b[i], c[i], d[i]));
            i += 1;
        }
        r
    }
}

/// Whether every lane holds the canonical one.
fn is_canonical_one(x: &VeryPackedSecureField) -> (r: bool)
    ensures
        r <==> forall|k: int| 0 <= k < 32 ==> #[trigger] x.lane(k) == QM31::one_el(),
{
    let one = QM31::one();
    let mut k: usize = 0;
    while k < 32
        invariant
            k <= 32,
            one == QM31::one_el(),
            forall|j: int| 0 <= j < k ==> #[trigger] x.lane(j) == one,
        decreases 32 - k,
    {
        if x.0[k] != one {
            assert(x.lane(k as int) != QM31::one_el());
            return false;
        }
        assert(x.lane(k as int) == one);
        k += 1;
    }
    true
}

/// `d * n + b * c`, where a product by one may be left out.
proof fn lemma_skipped_one(d: QM31, n: QM31, b: QM31, c: QM31)
    ensures
        n == QM31::one_el() ==> d.plus(b.times(c)) == d.times(n).plus(b.times(c)),
        c == QM31::one_el() ==> d.times(n).plus(b) == d.times(n).plus(b.times(c)),
        n == QM31::one_el() && c == QM31::one_el() ==> d.plus(b) == d.times(n).plus(b.times(c)),
{
    QM31::law_mul_one(d);
    QM31::law_mul_one(b);
    lemma_canon_both(d, b.times(c));
    lemma_canon_both(d.canon(), b.times(c));
    lemma_canon_both(d.times(n), b);
    lemma_canon_both(d.times(n), b.canon());
    lemma_canon_both(d, b);
    lemma_canon_both(d.canon(), b.canon());
    QM31::law_canon_results(d, d);
    QM31::law_canon_results(b, b);
}

/// The sum of a batch of fractions, without the products by numerators that are one in every lane.
/// In every lane it is the sum from left to right, as if nothing were left out.
pub fn sum_fractions_skipping_one_numerators(
    chunk: &[Fraction<VeryPackedSecureField, VeryPackedSecureField>],
) -> (r: Fraction<VeryPackedSecureField, VeryPackedSecureField>)
    requires
        chunk@.len() > 0,
    ensures
        forall|k: int|
            0 <= k < 32 ==> #[trigger] r.numerator.lane(k) == range_sum(
                lane_fracs(chunk@, k),
                0,
                chunk@.len() as int,
            ).numerator,
        forall|k: int|
            0 <= k < 32 ==> #[trigger] r.denominator.lane(k) == range_sum(
                lane_fracs(chunk@, k),
                0,
                chunk@.len() as int,
            ).denominator,
        forall|k: int|
            0 <= k < 32 ==> (#[trigger] r.denominator.lane(k)).canon() == denominators(
                lane_fracs(chunk@, k),
                chunk@.len(),
            ),
        forall|k: int|
            0 <= k < 32 ==> (#[trigger] r.numerator.lane(k)).canon() == cross_sum(
                lane_fracs(chunk@, k),
                chunk@.len(),
                chunk@.len(),
            ),
{
    let r = sum_fractions(chunk, 0, chunk.len(), true);
    proof {
        assert forall|k: int| 0 <= k < 32 implies (#[trigger] r.denominator.lane(k)).canon()
            == denominators(lane_fracs(chunk@, k), chunk@.len()) by {
            lemma_sum_over_common_denominator(lane_fracs(chunk@, k), chunk@.len());
        }
        assert forall|k: int| 0 <= k < 32 implies (#[trigger] r.numerator.lane(k)).canon()
            == cross_sum(lane_fracs(chunk@, k), chunk@.len(), chunk@.len()) by {
            lemma_sum_over_common_denominator(lane_fracs(chunk@, k), chunk@.len());
        }
    }
    r
}

/// The sum of the fractions `from .. to` in every lane. With `skip_ones`, products by a numerator
/// that is one in every lane are left out.
fn sum_fractions(
    fracs: &[Fraction<VeryPackedSecureField, VeryPackedSecureField>],
    from: usize,
    to: usize,
    skip_ones: bool,
) -> (r: Fraction<VeryPackedSecureField, VeryPackedSecureField>)
    requires
        from < to <= fracs@.len(),
    ensures
        forall|k: int|
            0 <= k < 32 ==> #[trigger] r.numerator.lane(k) == range_sum(
                lane_fracs(fracs@, k),
                from as int,
                to as int,
            ).numerator,
        forall|k: int|
            0 <= k < 32 ==> #[trigger] r.denominator.lane(k) == range_sum(
                lane_fracs(fracs@, k),
                from as int,
                to as int,
            ).denominator,
{
    let mut sum = fracs[from];
    let mut i: usize = from + 1;
    while i < to
        invariant
            from < i <= to <= fracs@.len(),
            forall|k: int|
                0 <= k < 32 ==> #[trigger] sum.numerator.lane(k) == range_sum(
                    lane_fracs(fracs@, k),
                    from as int,
                    i as int,
                ).numerator,
            forall|k: int|
                0 <= k < 32 ==> #[trigger] sum.denominator.lane(k) == range_sum(
                    lane_fracs(fracs@, k),
                    from as int,
                    i as int,
                ).denominator,
        decreases to - i,
    {
        let b = fracs[i];
        let skip_left = skip_ones && is_canonical_one(&sum.numerator);
        let skip_right = skip_ones && is_canonical_one(&b.numerator);
        let left = if skip_left {
            b.denominator
        } else {
            b.denominator.mul(sum.numerator)
        };
        let right = if skip_right {
            sum.denominator
        } else {
            sum.denominator.mul(b.numerator)
        };
        let numerator = left.add(right);
        let denominator = sum.denominator.mul(b.denominator);
        proof {
            assert forall|k: int| 0 <= k < 32 implies #[trigger] numerator.lane(k) == range_sum(
                lane_fracs(fracs@, k),
                from as int,
                i + 1,
            ).numerator && denominator.lane(k) == range_sum(
                lane_fracs(fracs@, k),
                from as int,
                i + 1,
            ).denominator by {
                let f = lane_fracs(fracs@, k);
                assert(f[i as int] == Fraction {
                    numerator: b.numerator.lane(k),
                    denominator: b.denominator.lane(k),
                });
                assert(sum.numerator.lane(k) == range_sum(f, from as int, i as int).numerator);
                assert(sum.denominator.lane(k) == range_sum(f, from as int, i as int).denominator);
                lemma_skipped_one(
                    b.denominator.lane(k),
                    sum.numerator.lane(k),
                    sum.denominator.lane(k),
                    b.numerator.lane(k),
                );
                assert(range_sum(f, from as int, i + 1) == fraction_sum(
                    range_sum(f, from as int, i as int),
                    f[i as int],
                ));
                assert(numerator.lane(k) == left.lane(k).plus(right.lane(k)));
                if skip_left {
                    assert(sum.numerator.lane(k) == QM31::one_el());
                }
                if skip_right {
                    assert(b.numerator.lane(k) == QM31::one_el());
                }
            }
            assert forall|k: int| 0 <= k < 32 implies #[trigger] denominator.lane(k) == range_sum(
                lane_fracs(fracs@, k),
                from as int,
                i + 1,
            ).denominator by {
                assert(numerator.lane(k) == numerator.lane(k));
            }
        }
        sum = Fraction { numerator, denominator };
        i += 1;
    }
    sum
}

impl<'a> BatchCpuDomainEvaluator<'a> {
    /// The values of the lookup constraints in a lane.
    pub open spec fn lane_lookup_constraints(self, size: nat, k: int) -> spec_fn(int) -> QM31 {
        let interaction = self.logup.interaction as int;
        let first = self.column_index_per_interaction@[interaction] as int;
        |i: int|
            lookup_constraint(
                lane_fracs(self.logup.fracs@, k),
                |j: int, offset: int|
                    self.lane_secure_mask(interaction, first + 4 * j, offset, k),
                self.logup.cumsum_shift,
                i,
                size,
            )
    }

    /// The lookup columns and the powers of the coefficient suffice for all batches, and the row
    /// before each row can be read.
    pub open spec fn can_finalize(self, size: nat) -> bool {
        let interaction = self.logup.interaction as int;
        let n = batch_count(self.logup.fracs@.len(), size);
        &&& self.wf()
        &&& self.domain_log_size < self.eval_domain_log_size
        &&& !self.logup.is_finalized
        &&& size > 0
        &&& self.logup.fracs@.len() > 0
        &&& interaction < self.trace_eval@.len()
        &&& self.column_index_per_interaction@[interaction] + 4 * n
            <= self.trace_eval@[interaction]@.len()
        &&& self.constraint_index + n <= self.random_coeff_powers@.len()
    }

    /// What finalizing the lookup does to the evaluation.
    pub open spec fn finalized(self, after: BatchCpuDomainEvaluator<'_>, size: nat) -> bool {
        let interaction = self.logup.interaction as int;
        let n = batch_count(self.logup.fracs@.len(), size);
        &&& self.same_rows(after)
        &&& forall|k: int|
            0 <= k < 32 ==> #[trigger] after.row_res.lane(k) == weighted_sum(
                self.row_res.lane(k),
                self.lane_powers(k),
                self.constraint_index as int,
                self.lane_lookup_constraints(size, k),
                n,
            )
        &&& after.constraint_index == self.constraint_index + n
        &&& after.column_index_per_interaction@ == self.column_index_per_interaction@.update(
            interaction,
            (self.column_index_per_interaction@[interaction] + 4 * n) as usize,
        )
        &&& after.logup.fracs@.len() == 0
        &&& after.logup.is_finalized
        &&& after.logup.interaction == self.logup.interaction
        &&& after.logup.claimed_sum == self.logup.claimed_sum
        &&& after.logup.cumsum_shift == self.logup.cumsum_shift
        &&& after.logup.log_size == self.logup.log_size
    }

    fn finalize_lookup(&mut self, batch_size: usize, skip_ones: bool)
        requires
            old(self).can_finalize(batch_size as nat),
        ensures
            old(self).finalized(*final(self), batch_size as nat),
    {
        let ghost start = *self;
        let ghost size = batch_size as nat;
        let interaction = self.logup.interaction;
        let ghost first = self.column_index_per_interaction@[interaction as int] as int;
        let n = self.logup.fracs.len();
        let n_batches = (n - 1) / batch_size + 1;
        let n_columns = self.trace_eval[interaction].len();
        let n_powers = self.random_coeff_powers.len();
        let shift = VeryPackedSecureField::broadcast(self.logup.cumsum_shift);
        let mut previous = VeryPackedSecureField::zero();
        let mut at: usize = 0;
        let mut i: usize = 0;
        while i < n_batches
            invariant
                i <= n_batches,
                n_batches == batch_count(n as nat, size),
                n > 0,
                size == batch_size,
                batch_size > 0,
                start.can_finalize(size),
                start.logup.interaction == interaction,
                start.logup.fracs@.len() == n,
                first == start.column_index_per_interaction@[interaction as int],
                first + 4 * n_batches <= n_columns,
                n_columns == start.trace_eval@[interaction as int]@.len(),
                start.constraint_index + n_batches <= n_powers,
                n_powers == start.random_coeff_powers@.len(),
                forall|k: int| 0 <= k < 32 ==> #[trigger] shift.lane(k) == start.logup.cumsum_shift,
                i < n_batches ==> at == i * size,
                forall|k: int|
                    0 <= k < 32 ==> #[trigger] previous.lane(k) == if i == 0 {
                        QM31::zero_el()
                    } else {
                        start.lane_secure_mask(interaction as int, first + 4 * (i - 1), 0, k)
                    },
                forall|k: int|
                    0 <= k < 32 ==> #[trigger] self.row_res.lane(k) == weighted_sum(
                        start.row_res.lane(k),
                        start.lane_powers(k),
                        start.constraint_index as int,
                        start.lane_lookup_constraints(size, k),
                        i as nat,
                    ),
                self.column_index_per_interaction@
                    == start.column_index_per_interaction@.update(
                    interaction as int,
                    (first + 4 * i) as usize,
                ),
                *self == (BatchCpuDomainEvaluator {
                    row_res: self.row_res,
                    constraint_index: (start.constraint_index + i) as usize,
                    column_index_per_interaction: self.column_index_per_interaction,
                    ..start
                }),
            decreases n_batches - i,
        {
            proof {
                lemma_batches(n as nat, size, i as int);
            }
            let to = if n - at <= batch_size {
                n
            } else {
                at + batch_size
            };
            assert(to == smaller((i + 1) * size, n as int));
            let sum = sum_fractions(self.logup.fracs.as_slice(), at, to, skip_ones);
            let step;
            let current;
            if i + 1 < n_batches {
                let offsets: [isize; 1] = [0];
                let mask = self.next_extension_interaction_mask(interaction, &offsets);
                current = mask[0];
                step = current.sub(previous);
                assert forall|k: int| 0 <= k < 32 implies #[trigger] current.lane(k)
                    == start.lane_secure_mask(interaction as int, first + 4 * i, 0, k) by {
                    assert(mask@[0].lane(k) == current.lane(k));
                }
            } else {
                let offsets: [isize; 2] = [-1, 0];
                let mask = self.next_extension_interaction_mask(interaction, &offsets);
                let previous_row = mask[0];
                current = mask[1];
                step = current.sub(previous_row).sub(previous).add(shift);
                assert forall|k: int| 0 <= k < 32 implies #[trigger] current.lane(k)
                    == start.lane_secure_mask(interaction as int, first + 4 * i, 0, k) by {
                    assert(mask@[1].lane(k) == current.lane(k));
                }
                assert forall|k: int| 0 <= k < 32 implies #[trigger] previous_row.lane(k)
                    == start.lane_secure_mask(interaction as int, first + 4 * i, -1, k) by {
                    assert(mask@[0].lane(k) == previous_row.lane(k));
                }
            }
            let constraint = step.mul(sum.denominator).sub(sum.numerator);
            let ghost before = self.row_res;
            proof {
                assert forall|k: int| 0 <= k < 32 implies #[trigger] constraint.lane(k) == (
                start.lane_lookup_constraints(size, k))(i as int) by {
                    assert(sum.numerator.lane(k) == range_sum(
                        lane_fracs(start.logup.fracs@, k),
                        at as int,
                        to as int,
                    ).numerator);
                    assert(sum.denominator.lane(k) == range_sum(
                        lane_fracs(start.logup.fracs@, k),
                        at as int,
                        to as int,
                    ).denominator);
                    assert(constraint.lane(k) == step.lane(k).times(sum.denominator.lane(k)).minus(
                        sum.numerator.lane(k),
                    ));
                    assert(current.lane(k) == start.lane_secure_mask(
                        interaction as int,
                        first + 4 * i,
                        0,
                        k,
                    ));
                    assert(lane_fracs(start.logup.fracs@, k).len() == n);
                }
            }
            self.add_constraint(constraint);
            proof {
                assert forall|k: int| 0 <= k < 32 implies #[trigger] self.row_res.lane(k)
                    == weighted_sum(
                    start.row_res.lane(k),
                    start.lane_powers(k),
                    start.constraint_index as int,
                    start.lane_lookup_constraints(size, k),
                    (i + 1) as nat,
                ) by {
                    assert(before.lane(k) == weighted_sum(
                        start.row_res.lane(k),
                        start.lane_powers(k),
                        start.constraint_index as int,
                        start.lane_lookup_constraints(size, k),
                        i as nat,
                    ));
                    assert(constraint.lane(k) == (start.lane_lookup_constraints(size, k))(i as int));
                }
            }
            assert(self.column_index_per_interaction@
                =~= start.column_index_per_interaction@.update(
                interaction as int,
                (first + 4 * (i + 1)) as usize,
            ));
            previous = current;
            at = to;
            i += 1;
        }
        self.logup.fracs = Vec::new();
        self.logup.is_finalized = true;
    }

    /// Adds the constraint of every batch of `batch_size` fractions, and starts over with none.
    pub fn finalize_logup_batched(&mut self, batch_size: usize)
        requires
            old(self).can_finalize(batch_size as nat),
        ensures
            old(self).finalized(*final(self), batch_size as nat),
    {
        self.finalize_lookup(batch_size, false);
    }

    /// One lookup column for each fraction.
    pub fn finalize_logup(&mut self)
        requires
            old(self).can_finalize(1),
        ensures
            old(self).finalized(*final(self), 1),
    {
        self.finalize_logup_batched(1);
    }

    /// One lookup column for each pair of fractions.
    pub fn finalize_logup_in_pairs(&mut self)
        requires
            old(self).can_finalize(2),
        ensures
            old(self).finalized(*final(self), 2),
    {
        self.finalize_logup_batched(2);
    }
}

/// Evaluates constraints at the rows of one vector of lanes.
pub struct SimdDomainEvaluator<'a> {
    /// Which vector of rows.
    pub vec_row: usize,
    pub lanes: BatchCpuDomainEvaluator<'a>,
}

impl<'a> SimdDomainEvaluator<'a> {
    /// The powers of the random coefficient, each in every lane.
    pub fn broadcast_random_coeff_powers(random_coeff_powers: &[QM31]) -> (r: Vec<
        VeryPackedSecureField,
    >)
        ensures
            r@.len() == random_coeff_powers@.len(),
            forall|i: int, k: int|
                0 <= i < r@.len() && 0 <= k < 32 ==> #[trigger] r@[i].lane(k)
                    == random_coeff_powers@[i],
    {
        BatchCpuDomainEvaluator::broadcast_random_coeff_powers(random_coeff_powers)
    }

    pub fn new(
        trace_eval: &'a TraceColumns<'a>,
        vec_row: usize,
        random_coeff_powers: &'a [VeryPackedSecureField],
        domain_log_size: u32,
        eval_log_size: u32,
        log_size: u32,
        claimed_sum: QM31,
    ) -> (r: SimdDomainEvaluator<'a>)
        requires
            trace_eval@.len() <= MAX_N_INTERACTIONS,
            log_size <= 30,
            32 * vec_row <= usize::MAX,
        ensures
            r.vec_row == vec_row,
            r.lanes.row == 32 * vec_row,
            r.lanes.trace_eval@ == trace_eval@,
            r.lanes.random_coeff_powers@ == random_coeff_powers@,
            r.lanes.domain_log_size == domain_log_size,
            r.lanes.eval_domain_log_size == eval_log_size,
            r.lanes.column_index_per_interaction@ == seq![0usize, 0, 0, 0],
            r.lanes.constraint_index == 0,
            forall|k: int| 0 <= k < 32 ==> #[trigger] r.lanes.row_res.lane(k) == QM31::zero_el(),
            r.lanes.logup.interaction == INTERACTION_TRACE_IDX,
            r.lanes.logup.claimed_sum == claimed_sum,
            r.lanes.logup.cumsum_shift == even_share(claimed_sum, log_size as nat),
            r.lanes.logup.fracs@.len() == 0,
            r.lanes.logup.is_finalized,
    {
        SimdDomainEvaluator {
            vec_row,
            lanes: BatchCpuDomainEvaluator::new(
                trace_eval,
                vec_row * BATCH_ROWS,
                random_coeff_powers,
                domain_log_size,
                eval_log_size,
                log_size,
                claimed_sum,
            ),
        }
    }

    /// The next column of an interaction, at the given offsets.
    pub fn next_interaction_mask(&mut self, interaction: usize, offsets: &[isize]) -> (r: Vec<
        VeryPackedBaseField,
    >)
        requires
            old(self).lanes.wf(),
            old(self).lanes.can_read(offsets@),
            interaction < old(self).lanes.trace_eval@.len(),
            old(self).lanes.column_index_per_interaction@[interaction as int] < old(
                self).lanes.trace_eval@[interaction as int]@.len(),
        ensures
            r@.len() == offsets@.len(),
            forall|i: int, k: int|
                0 <= i < r@.len() && 0 <= k < 32 ==> #[trigger] r@[i].lane(k) == old(
                    self).lanes.lane_mask(
                    interaction as int,
                    old(self).lanes.column_index_per_interaction@[interaction as int] as int,
                    offsets@[i] as int,
                    k,
                ),
            final(self).vec_row == old(self).vec_row,
            final(self).lanes == (BatchCpuDomainEvaluator {
                column_index_per_interaction: final(self).lanes.column_index_per_interaction,
                ..old(self).lanes
            }),
            final(self).lanes.column_index_per_interaction@ == old(
                self).lanes.column_index_per_interaction@.update(
                interaction as int,
                (old(self).lanes.column_index_per_interaction@[interaction as int] + 1) as usize,
            ),
    {
        self.lanes.next_interaction_mask(interaction, offsets)
    }

    /// Adds a constraint, weighted by the next power of the random coefficient.
    pub fn add_constraint(&mut self, constraint: VeryPackedSecureField)
        requires
            old(self).lanes.constraint_index < old(self).lanes.random_coeff_powers@.len(),
        ensures
            forall|k: int|
                0 <= k < 32 ==> #[trigger] final(self).lanes.row_res.lane(k) == old(
                    self).lanes.row_res.lane(k).plus(
                    old(self).lanes.random_coeff_powers@[old(
                        self).lanes.constraint_index as int].lane(k).times(constraint.lane(k)),
                ),
            final(self).vec_row == old(self).vec_row,
            final(self).lanes == (BatchCpuDomainEvaluator {
                row_res: final(self).lanes.row_res,
                constraint_index: (old(self).lanes.constraint_index + 1) as usize,
                ..old(self).lanes
            }),
    {
        self.lanes.add_constraint(constraint)
    }

    /// Adds a fraction to the lookup sum.
    pub fn write_logup_frac(
        &mut self,
        fraction: Fraction<VeryPackedSecureField, VeryPackedSecureField>,
    )
        ensures
            final(self).lanes.logup.fracs@ == old(self).lanes.logup.fracs@.push(fraction),
            final(self).lanes.logup.is_finalized == (old(self).lanes.logup.is_finalized && old(
                self).lanes.logup.fracs@.len() > 0),
            final(self).vec_row == old(self).vec_row,
            final(self).lanes == (BatchCpuDomainEvaluator {
                logup: (LogupAtRow {
                    fracs: final(self).lanes.logup.fracs,
                    is_finalized: final(self).lanes.logup.is_finalized,
                    ..old(self).lanes.logup
                }),
                ..old(self).lanes
            }),
    {
        self.lanes.write_logup_frac(fraction)
    }

    /// Adds the constraint of every batch of `batch_size` fractions: the same constraints as with
    /// every product written out.
    pub fn finalize_logup_batched(&mut self, batch_size: usize)
        requires
            old(self).lanes.can_finalize(batch_size as nat),
        ensures
            old(self).lanes.finalized(final(self).lanes, batch_size as nat),
            final(self).vec_row == old(self).vec_row,
    {
        self.lanes.finalize_lookup(batch_size, true)
    }

    /// One lookup column for each fraction.
    pub fn finalize_logup(&mut self)
        requires
            old(self).lanes.can_finalize(1),
        ensures
            old(self).lanes.finalized(final(self).lanes, 1),
            final(self).vec_row == old(self).vec_row,
    {
        self.finalize_logup_batched(1)
    }

    /// One lookup column for each pair of fractions.
    pub fn finalize_logup_in_pairs(&mut self)
        requires
            old(self).lanes.can_finalize(2),
        ensures
            old(self).lanes.finalized(final(self).lanes, 2),
            final(self).vec_row == old(self).vec_row,
    {
        self.finalize_logup_batched(2)
    }
}

/// The four coordinates of sixteen rows, lane by lane.
pub fn load_secure_coords(columns: &[Vec<M31>; 4], row: usize) -> (r: PackedQM31)
    requires
        forall|c: int| 0 <= c < 4 ==> row + 16 <= (#[trigger] columns@[c])@.len(),
    ensures
        forall|k: int|
            0 <= k < 16 ==> #[trigger] r.lane(k) == from_coords(
                columns@[0]@[row + k],
                columns@[1]@[row + k],
                columns@[2]@[row + k],
                columns@[3]@[row + k],
            ),
{
    let n = columns[0].len();
    let mut lanes = [QM31::zero(); 16];
    let mut k: usize = 0;
    while k < 16
        invariant
            k <= 16,
            row + 16 <= n,
            forall|c: int| 0 <= c < 4 ==> row + 16 <= (#[trigger] columns@[c])@.len(),
            forall|j: int|
                0 <= j < k ==> #[trigger] lanes@[j] == from_coords(
                    columns@[0]@[row + j],
                    columns@[1]@[row + j],
                    columns@[2]@[row + j],
                    columns@[3]@[row + j],
                ),
        decreases 16 - k,
    {
        assert(row + 16 <= columns@[0]@.len() && row + 16 <= columns@[1]@.len());
        assert(row + 16 <= columns@[2]@.len() && row + 16 <= columns@[3]@.len());
        lanes[k] =
        QM31::from_m31(
            columns[0][row + k],
            columns[1][row + k],
            columns[2][row + k],
            columns[3][row + k],
        );
        k += 1;
    }
    PackedQM31(lanes)
}

} // verus!
