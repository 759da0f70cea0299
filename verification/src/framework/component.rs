//! Constraint quotients of a component on an evaluation domain.

use vstd::arithmetic::power2::pow2;
use vstd::prelude::*;

use crate::fields::m31::M31;
use crate::fields::qm31::QM31;
use crate::fields::{lemma_inv_of, Field};
use crate::framework::domain::{
    covers, mask_value, read_mask, weighted_sum, BatchCpuDomainEvaluator, TraceColumns,
};
use crate::framework::expr::{or_zero, BaseExpr, ColumnExpr, ExtExpr, Values};
use crate::framework::names::NameMap;
use crate::framework::packed::{VeryPackedSecureField, BATCH_ROWS};
use crate::framework::PREPROCESSED_TRACE_IDX;
use crate::poly::circle_poly::CircleEvaluation;
use crate::utils::lemma_pow2_bound;

verus! {

/// Where constraints are evaluated: the rows of a trace on an evaluation domain, the powers of
/// the random coefficient and the claimed lookup sum.
pub struct RowContext<'a> {
    pub trace: Seq<Vec<&'a CircleEvaluation>>,
    pub powers: Seq<QM31>,
    pub domain_log: nat,
    pub eval_log: nat,
    pub claimed_sum: QM31,
}

/// Evaluates constraints at one row of the evaluation domain.
pub struct CpuDomainEvaluator<'a> {
    pub trace_eval: &'a TraceColumns<'a>,
    pub row: usize,
    pub random_coeff_powers: &'a [QM31],
    pub row_res: QM31,
    pub constraint_index: usize,
    pub domain_log_size: u32,
    pub eval_domain_log_size: u32,
    pub claimed_sum: QM31,
}

impl<'a> CpuDomainEvaluator<'a> {
    pub open spec fn wf(self) -> bool {
        &&& self.domain_log_size <= self.eval_domain_log_size <= 31
        &&& self.row < pow2(self.eval_domain_log_size as nat)
        &&& self.trace_eval@.len() <= 4
        &&& covers(self.trace_eval@, self.eval_domain_log_size as nat)
    }

    pub open spec fn context(self) -> RowContext<'a> {
        RowContext {
            trace: self.trace_eval@,
            powers: self.random_coeff_powers@,
            domain_log: self.domain_log_size as nat,
            eval_log: self.eval_domain_log_size as nat,
            claimed_sum: self.claimed_sum,
        }
    }

    pub fn new(
        trace_eval: &'a TraceColumns<'a>,
        row: usize,
        random_coeff_powers: &'a [QM31],
        domain_log_size: u32,
        eval_log_size: u32,
        claimed_sum: QM31,
    ) -> (r: CpuDomainEvaluator<'a>)
        ensures
            r.trace_eval@ == trace_eval@,
            r.row == row,
            r.random_coeff_powers@ == random_coeff_powers@,
            r.row_res == QM31::zero_el(),
            r.constraint_index == 0,
            r.domain_log_size == domain_log_size,
            r.eval_domain_log_size == eval_log_size,
            r.claimed_sum == claimed_sum,
    {
        CpuDomainEvaluator {
            trace_eval,
            row,
            random_coeff_powers,
            row_res: QM31::zero(),
            constraint_index: 0,
            domain_log_size,
            eval_domain_log_size: eval_log_size,
            claimed_sum,
        }
    }

    /// Adds a constraint, weighted by the next power of the random coefficient.
    pub fn add_constraint(&mut self, constraint: QM31)
        requires
            old(self).constraint_index < old(self).random_coeff_powers@.len(),
        ensures
            *final(self) == (CpuDomainEvaluator {
                row_res: old(self).row_res.plus(
                    old(self).random_coeff_powers@[old(self).constraint_index as int].times(
                        constraint,
                    ),
                ),
                constraint_index: (old(self).constraint_index + 1) as usize,
                ..*old(self)
            }),
    {
        let power = self.random_coeff_powers[self.constraint_index];
        self.row_res = self.row_res.add(power.mul(constraint));
        self.constraint_index = self.constraint_index + 1;
    }
}

/// The context of a batch whose powers are the same in every lane.
pub open spec fn batch_context<'a>(
    eval: BatchCpuDomainEvaluator<'a>,
    powers: Seq<QM31>,
) -> RowContext<'a> {
    RowContext {
        trace: eval.trace_eval@,
        powers,
        domain_log: eval.domain_log_size as nat,
        eval_log: eval.eval_domain_log_size as nat,
        claimed_sum: eval.logup.claimed_sum,
    }
}

/// The powers of a batch are those of single rows.
pub open spec fn is_broadcast(lanes: Seq<VeryPackedSecureField>, powers: Seq<QM31>) -> bool {
    &&& lanes.len() == powers.len()
    &&& forall|i: int, k: int|
        0 <= i < powers.len() && 0 <= k < 32 ==> #[trigger] lanes[i].lane(k) == powers[i]
}

/// The constraints of a component.
pub trait FrameworkEval {
    /// What the constraints come to at a row: their sum, weighted by the powers.
    spec fn row_sum(&self, at: RowContext<'_>, row: int) -> QM31;

    /// The trace has the columns that the constraints read, and the powers suffice.
    spec fn fits(&self, at: RowContext<'_>) -> bool;

    spec fn log_size_s(&self) -> nat;

    fn log_size(&self) -> (r: u32)
        ensures
            r == self.log_size_s(),
    ;

    /// Evaluates the constraints at one row.
    fn evaluate_row<'a>(&self, eval: CpuDomainEvaluator<'a>) -> (r: CpuDomainEvaluator<'a>)
        requires
            eval.wf(),
            eval.row_res == QM31::zero_el(),
            eval.constraint_index == 0,
            self.fits(eval.context()),
        ensures
            r.row_res == self.row_sum(eval.context(), eval.row as int),
    ;

    /// Evaluates the constraints at a batch of rows.
    fn evaluate<'a>(&self, eval: BatchCpuDomainEvaluator<'a>) -> (r: BatchCpuDomainEvaluator<'a>)
        requires
            eval.wf(),
            forall|k: int| 0 <= k < 32 ==> #[trigger] eval.row_res.lane(k) == QM31::zero_el(),
            eval.constraint_index == 0,
            exists|powers: Seq<QM31>|
                #[trigger] is_broadcast(eval.random_coeff_powers@, powers) && self.fits(
                    batch_context(eval, powers),
                ),
        ensures
            forall|powers: Seq<QM31>, k: int|
                #[trigger] is_broadcast(eval.random_coeff_powers@, powers) && 0 <= k < 32
                    ==> #[trigger] r.row_res.lane(k) == self.row_sum(
                    batch_context(eval, powers),
                    eval.row + k,
                ),
    ;
}

/// Constraints given as expressions over the trace, with values for their parameters.
pub struct FormalEval {
    pub constraints: Vec<ExtExpr>,
    pub params: NameMap<M31>,
    pub ext_params: NameMap<QM31>,
    /// The places of the preprocessed columns in their tree.
    pub preprocessed: NameMap<usize>,
    pub log_size: u32,
}

impl FormalEval {
    /// What the variables are worth at a row.
    pub open spec fn row_values(self, at: RowContext<'_>, row: int) -> Values {
        Values {
            columns: |c: ColumnExpr|
                mask_value(
                    at.trace,
                    c.interaction as int,
                    c.idx as int,
                    row,
                    at.domain_log,
                    at.eval_log,
                    c.offset as int,
                ),
            preprocessed: |n: Seq<char>|
                mask_value(
                    at.trace,
                    PREPROCESSED_TRACE_IDX as int,
                    self.preprocessed.value_of(n)->Some_0 as int,
                    row,
                    at.domain_log,
                    at.eval_log,
                    0,
                ),
            params: |n: Seq<char>| or_zero(self.params.value_of(n)),
            ext_params: |n: Seq<char>| or_zero(self.ext_params.value_of(n)),
        }
    }

    /// The expression can be evaluated at every row: the trace has its columns, its parameters
    /// have values, and only non-zero parameters are inverted. Columns are read at offsets only
    /// where the domain is large enough to `shift` by a step of the trace.
    pub open spec fn base_evaluable(
        self,
        e: BaseExpr,
        trace: Seq<Vec<&CircleEvaluation>>,
        shift: bool,
    ) -> bool
        decreases e,
    {
        match e {
            BaseExpr::Col(c) => c.interaction < trace.len() && c.idx
                < trace[c.interaction as int]@.len() && (shift || c.offset == 0),
            BaseExpr::PreprocessedColumn(p) => match self.preprocessed.value_of(p.id.id@) {
                Some(i) => 0 < trace.len() && i < trace[0]@.len(),
                None => false,
            },
            BaseExpr::Const(_) => true,
            BaseExpr::Param(name) => self.params.value_of(name@) is Some,
            BaseExpr::Add(a, b) => self.base_evaluable(*a, trace, shift) && self.base_evaluable(*b, trace, shift),
            BaseExpr::Sub(a, b) => self.base_evaluable(*a, trace, shift) && self.base_evaluable(*b, trace, shift),
            BaseExpr::Mul(a, b) => self.base_evaluable(*a, trace, shift) && self.base_evaluable(*b, trace, shift),
            BaseExpr::Neg(a) => self.base_evaluable(*a, trace, shift),
            BaseExpr::Inv(a) => match *a {
                BaseExpr::Param(name) => match self.params.value_of(name@) {
                    Some(x) => x.canon() != M31::zero_el(),
                    None => false,
                },
                _ => false,
            },
        }
    }

    pub open spec fn ext_evaluable(
        self,
        e: ExtExpr,
        trace: Seq<Vec<&CircleEvaluation>>,
        shift: bool,
    ) -> bool
        decreases e,
    {
        match e {
            ExtExpr::SecureCol(a, b, c, d) => self.base_evaluable(*a, trace, shift)
                && self.base_evaluable(*b, trace, shift) && self.base_evaluable(*c, trace, shift)
                && self.base_evaluable(*d, trace, shift),
            ExtExpr::Const(_) => true,
            ExtExpr::Param(name) => self.ext_params.value_of(name@) is Some,
            ExtExpr::Add(a, b) => self.ext_evaluable(*a, trace, shift) && self.ext_evaluable(*b, trace, shift),
            ExtExpr::Sub(a, b) => self.ext_evaluable(*a, trace, shift) && self.ext_evaluable(*b, trace, shift),
            ExtExpr::Mul(a, b) => self.ext_evaluable(*a, trace, shift) && self.ext_evaluable(*b, trace, shift),
            ExtExpr::Neg(a) => self.ext_evaluable(*a, trace, shift),
        }
    }

    fn base_at(
        &self,
        e: &BaseExpr,
        trace: &TraceColumns<'_>,
        row: usize,
        domain_log: u32,
        eval_log: u32,
        at: Ghost<RowContext<'_>>,
    ) -> (r: M31)
        requires
            domain_log <= eval_log <= 31,
            row < pow2(eval_log as nat),
            covers(trace@, eval_log as nat),
            self.base_evaluable(*e, trace@, domain_log < eval_log),
            at@.trace == trace@,
            at@.domain_log == domain_log,
            at@.eval_log == eval_log,
        ensures
            r == e.value_s(self.row_values(at@, row as int)),
        decreases e,
    {
        match e {
            BaseExpr::Col(c) => read_mask(
                trace,
                c.interaction,
                c.idx,
                row,
                domain_log,
                eval_log,
                c.offset,
            ),
            BaseExpr::PreprocessedColumn(p) => match self.preprocessed.get(&p.id.id) {
                Some(i) => read_mask(
                    trace,
                    PREPROCESSED_TRACE_IDX,
                    *i,
                    row,
                    domain_log,
                    eval_log,
                    0,
                ),
                None => M31::zero(),
            },
            BaseExpr::Const(c) => *c,
            BaseExpr::Param(name) => match self.params.get(name) {
                Some(x) => *x,
                None => M31::zero(),
            },
            BaseExpr::Add(a, b) => self.base_at(a, trace, row, domain_log, eval_log, at).add(
                self.base_at(b, trace, row, domain_log, eval_log, at),
            ),
            BaseExpr::Sub(a, b) => self.base_at(a, trace, row, domain_log, eval_log, at).sub(
                self.base_at(b, trace, row, domain_log, eval_log, at),
            ),
            BaseExpr::Mul(a, b) => self.base_at(a, trace, row, domain_log, eval_log, at).mul(
                self.base_at(b, trace, row, domain_log, eval_log, at),
            ),
            BaseExpr::Neg(a) => self.base_at(a, trace, row, domain_log, eval_log, at).neg(),
            BaseExpr::Inv(a) => {
                let x = self.base_at(a, trace, row, domain_log, eval_log, at);
                let y = x.inverse();
                proof {
                    lemma_inv_of(x, y);
                }
                y
            },
        }
    }

    fn ext_at(
        &self,
        e: &ExtExpr,
        trace: &TraceColumns<'_>,
        row: usize,
        domain_log: u32,
        eval_log: u32,
        at: Ghost<RowContext<'_>>,
    ) -> (r: QM31)
        requires
            domain_log <= eval_log <= 31,
            row < pow2(eval_log as nat),
            covers(trace@, eval_log as nat),
            self.ext_evaluable(*e, trace@, domain_log < eval_log),
            at@.trace == trace@,
            at@.domain_log == domain_log,
            at@.eval_log == eval_log,
        ensures
            r == e.value_s(self.row_values(at@, row as int)),
        decreases e,
    {
        match e {
            ExtExpr::SecureCol(a, b, c, d) => QM31::from_m31(
                self.base_at(a, trace, row, domain_log, eval_log, at),
                self.base_at(b, trace, row, domain_log, eval_log, at),
                self.base_at(c, trace, row, domain_log, eval_log, at),
                self.base_at(d, trace, row, domain_log, eval_log, at),
            ),
            ExtExpr::Const(c) => *c,
            ExtExpr::Param(name) => match self.ext_params.get(name) {
                Some(x) => *x,
                None => QM31::zero(),
            },
            ExtExpr::Add(a, b) => self.ext_at(a, trace, row, domain_log, eval_log, at).add(
                self.ext_at(b, trace, row, domain_log, eval_log, at),
            ),
            ExtExpr::Sub(a, b) => self.ext_at(a, trace, row, domain_log, eval_log, at).sub(
                self.ext_at(b, trace, row, domain_log, eval_log, at),
            ),
            ExtExpr::Mul(a, b) => self.ext_at(a, trace, row, domain_log, eval_log, at).mul(
                self.ext_at(b, trace, row, domain_log, eval_log, at),
            ),
            ExtExpr::Neg(a) => self.ext_at(a, trace, row, domain_log, eval_log, at).neg(),
        }
    }

    /// The values of the constraints at a row.
    pub open spec fn constraint_values(self, at: RowContext<'_>, row: int) -> spec_fn(int) -> QM31 {
        |i: int| self.constraints@[i].value_s(self.row_values(at, row))
    }
}

impl FrameworkEval for FormalEval {
    open spec fn row_sum(&self, at: RowContext<'_>, row: int) -> QM31 {
        weighted_sum(
            QM31::zero_el(),
            |i: int| at.powers[i],
            0,
            self.constraint_values(at, row),
            self.constraints@.len(),
        )
    }

    open spec fn fits(&self, at: RowContext<'_>) -> bool {
        &&& self.constraints@.len() <= at.powers.len()
        &&& forall|i: int|
            0 <= i < self.constraints@.len() ==> self.ext_evaluable(
                #[trigger] self.constraints@[i],
                at.trace,
                at.domain_log < at.eval_log,
            )
    }

    open spec fn log_size_s(&self) -> nat {
        self.log_size as nat
    }

    fn log_size(&self) -> (r: u32) {
        self.log_size
    }

    fn evaluate_row<'a>(&self, eval: CpuDomainEvaluator<'a>) -> (r: CpuDomainEvaluator<'a>) {
        let ghost at = eval.context();
        let mut r = eval;
        let mut i: usize = 0;
        while i < self.constraints.len()
            invariant
                i <= self.constraints@.len(),
                eval.wf(),
                at == eval.context(),
                self.fits(at),
                r == (CpuDomainEvaluator {
                    row_res: r.row_res,
                    constraint_index: i,
                    ..eval
                }),
                r.row_res == weighted_sum(
                    QM31::zero_el(),
                    |i: int| at.powers[i],
                    0,
                    self.constraint_values(at, eval.row as int),
                    i as nat,
                ),
            decreases self.constraints@.len() - i,
        {
            let value = self.ext_at(
                &self.constraints[i],
                r.trace_eval,
                r.row,
                r.domain_log_size,
                r.eval_domain_log_size,
                Ghost(at),
            );
            r.add_constraint(value);
            i += 1;
        }
        r
    }

    fn evaluate<'a>(&self, eval: BatchCpuDomainEvaluator<'a>) -> (r: BatchCpuDomainEvaluator<'a>) {
        let ghost chosen = choose|powers: Seq<QM31>|
            #[trigger] is_broadcast(eval.random_coeff_powers@, powers) && self.fits(
                batch_context(eval, powers),
            );
        let ghost at = batch_context(eval, chosen);
        let ghost start = eval;
        let mut r = eval;
        let mut i: usize = 0;
        while i < self.constraints.len()
            invariant
                i <= self.constraints@.len(),
                start.wf(),
                at == batch_context(start, chosen),
                is_broadcast(start.random_coeff_powers@, chosen),
                self.fits(at),
                r == (BatchCpuDomainEvaluator {
                    row_res: r.row_res,
                    constraint_index: i,
                    ..start
                }),
                forall|k: int|
                    0 <= k < 32 ==> #[trigger] r.row_res.lane(k) == weighted_sum(
                        QM31::zero_el(),
                        |i: int| at.powers[i],
                        0,
                        self.constraint_values(at, start.row + k),
                        i as nat,
                    ),
            decreases self.constraints@.len() - i,
        {
            let mut lanes = [QM31::zero(); 32];
            let mut k: usize = 0;
            while k < BATCH_ROWS
                invariant
                    k <= 32,
                    i < self.constraints@.len(),
                    start.wf(),
                    at == batch_context(start, chosen),
                    self.fits(at),
                    r.trace_eval@ == start.trace_eval@,
                    r.row == start.row,
                    r.domain_log_size == start.domain_log_size,
                    r.eval_domain_log_size == start.eval_domain_log_size,
                    forall|j: int|
                        0 <= j < k ==> #[trigger] lanes@[j] == (self.constraint_values(
                            at,
                            start.row + j,
                        ))(i as int),
                decreases 32 - k,
            {
                proof {
                    lemma_pow2_bound(start.eval_domain_log_size as nat);
                }
                lanes[k] =
                self.ext_at(
                    &self.constraints[i],
                    r.trace_eval,
                    r.row + k,
                    r.domain_log_size,
                    r.eval_domain_log_size,
                    Ghost(at),
                );
                k += 1;
            }
            let constraint = VeryPackedSecureField(lanes);
            let ghost before = r.row_res;
            r.add_constraint(constraint);
            proof {
                assert forall|k: int| 0 <= k < 32 implies #[trigger] r.row_res.lane(k)
                    == weighted_sum(
                    QM31::zero_el(),
                    |i: int| at.powers[i],
                    0,
                    self.constraint_values(at, start.row + k),
                    (i + 1) as nat,
                ) by {
                    assert(before.lane(k) == weighted_sum(
                        QM31::zero_el(),
                        |i: int| at.powers[i],
                        0,
                        self.constraint_values(at, start.row + k),
                        i as nat,
                    ));
                    assert(constraint.lane(k) == lanes@[k]);
                    assert(start.random_coeff_powers@[i as int].lane(k) == chosen[i as int]);
                }
            }
            i += 1;
        }
        proof {
            assert forall|powers: Seq<QM31>, k: int|
                #[trigger] is_broadcast(start.random_coeff_powers@, powers) && 0 <= k
                    < 32 implies #[trigger] r.row_res.lane(k) == self.row_sum(
                batch_context(start, powers),
                start.row + k,
            ) by {
                assert forall|i: int| 0 <= i < powers.len() implies powers[i] == chosen[i] by {
                    assert(start.random_coeff_powers@[i].lane(0) == powers[i]);
                    assert(start.random_coeff_powers@[i].lane(0) == chosen[i]);
                }
                assert(powers =~= chosen);
            }
        }
        r
    }
}

} // verus!
