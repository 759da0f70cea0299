//! Constraint quotients: the weighted constraints, divided by what vanishes on the trace.

use vstd::arithmetic::power2::{lemma2_to64, pow2};
use vstd::prelude::*;

use crate::circle::lemma_step_small;
use crate::fields::m31::M31;
use crate::fields::qm31::QM31;
use crate::fields::Field;
use crate::framework::component::{
    batch_context, is_broadcast, CpuDomainEvaluator, FrameworkEval, RowContext,
};
use crate::framework::domain::{
    covers, BatchCpuDomainEvaluator, SimdDomainEvaluator, TraceColumns,
};
use crate::framework::packed::{BATCH_ROWS, LOG_N_LANES, LOG_N_VERY_PACKED_ELEMS};
use crate::framework::vanishing::{
    denominator_inverses, eval_domain_s, row_denominator_inverse, subdomain_eval_domain,
};
use crate::framework::{MAX_N_INTERACTIONS, PREPROCESSED_TRACE_IDX};
use crate::pcs::config::TreeSubspan;
use crate::pcs::scheme::Trace;
use crate::poly::circle_poly::{CircleEvaluation, Poly};
use crate::poly::domain::{canonic_domain, CanonicCoset, CircleDomain};
use crate::poly::extension::{evaluate, evaluates};
use crate::poly::twiddles::{lemma_half_odds_nonzero, precompute_twiddles};
use crate::secure_column::SecureColumnByCoords;
use crate::utils::{lemma_pow2_bound, pow2_usize};

verus! {

/// How the rows of an evaluation domain are come by.
#[derive(Clone, Copy, Debug, PartialEq, Eq, Structural)]
pub enum EvaluationMode {
    /// The committed evaluations hold them: the domain is a part of the committed one.
    SubDomain { log_expansion: u32 },
    /// The columns are extended to them.
    ExtendToEvalDomain,
}

impl EvaluationMode {
    pub open spec fn expansion(self) -> nat {
        match self {
            EvaluationMode::SubDomain { log_expansion } => log_expansion as nat,
            EvaluationMode::ExtendToEvalDomain => 0,
        }
    }
}

/// What a row of the result holds: the quotient added to what was there.
pub open spec fn accumulated<E: FrameworkEval>(
    component: &E,
    at: RowContext<'_>,
    before: Seq<QM31>,
    denominator_inverse: M31,
    row: int,
) -> QM31 {
    before[row].plus(component.row_sum(at, row).scaled(denominator_inverse))
}

/// Evaluates the constraints row by row, in batches where there are rows enough, and adds the
/// quotients to a column.
pub fn accumulate_pointwise_cpu<E: FrameworkEval>(
    component_eval: &E,
    claimed_sum: QM31,
    trace_cols: &TraceColumns<'_>,
    eval_log_size: u32,
    trace_log_size: u32,
    denom_inv: &Vec<M31>,
    random_coeff_powers: &Vec<QM31>,
    accum: &SecureColumnByCoords,
) -> (r: SecureColumnByCoords)
    requires
        trace_log_size <= eval_log_size <= 30,
        trace_cols@.len() <= MAX_N_INTERACTIONS,
        covers(trace_cols@, eval_log_size as nat),
        component_eval.log_size_s() <= 30,
        component_eval.fits(
            RowContext {
                trace: trace_cols@,
                powers: random_coeff_powers@,
                domain_log: trace_log_size as nat,
                eval_log: eval_log_size as nat,
                claimed_sum,
            },
        ),
        denom_inv@.len() == pow2((eval_log_size - trace_log_size) as nat),
        accum.wf(),
        accum.len_s() == pow2(eval_log_size as nat),
    ensures
        r.wf(),
        r.elements() == Seq::new(
            pow2(eval_log_size as nat),
            |row: int|
                accumulated(
                    component_eval,
                    RowContext {
                        trace: trace_cols@,
                        powers: random_coeff_powers@,
                        domain_log: trace_log_size as nat,
                        eval_log: eval_log_size as nat,
                        claimed_sum,
                    },
                    accum.elements(),
                    denom_inv@[row / pow2(trace_log_size as nat) as int],
                    row,
                ),
        ),
{
    let n = pow2_usize(eval_log_size);
    let per_inverse = pow2_usize(trace_log_size);
    let ghost at = RowContext {
        trace: trace_cols@,
        powers: random_coeff_powers@,
        domain_log: trace_log_size as nat,
        eval_log: eval_log_size as nat,
        claimed_sum,
    };
    let ghost target = Seq::new(
        pow2(eval_log_size as nat),
        |row: int|
            accumulated(
                component_eval,
                at,
                accum.elements(),
                denom_inv@[row / pow2(trace_log_size as nat) as int],
                row,
            ),
    );
    let ghost ratio = pow2((eval_log_size - trace_log_size) as nat);
    proof {
        vstd::arithmetic::power2::lemma_pow2_adds(
            trace_log_size as nat,
            (eval_log_size - trace_log_size) as nat,
        );
    }
    let batch_powers = BatchCpuDomainEvaluator::broadcast_random_coeff_powers(
        random_coeff_powers.as_slice(),
    );
    assert(is_broadcast(batch_powers@, random_coeff_powers@));
    let log_size = component_eval.log_size();
    let mut r = SecureColumnByCoords::new_empty();
    let mut row: usize = 0;
    while n - row >= BATCH_ROWS
        invariant
            row <= n,
            n == pow2(eval_log_size as nat),
            per_inverse == pow2(trace_log_size as nat),
            per_inverse >= 1,
            n == per_inverse * ratio,
            ratio == denom_inv@.len(),
            trace_log_size <= eval_log_size <= 30,
            trace_cols@.len() <= 4,
            covers(trace_cols@, eval_log_size as nat),
            log_size == component_eval.log_size_s(),
            log_size <= 30,
            component_eval.fits(at),
            at == (RowContext {
                trace: trace_cols@,
                powers: random_coeff_powers@,
                domain_log: trace_log_size as nat,
                eval_log: eval_log_size as nat,
                claimed_sum,
            }),
            is_broadcast(batch_powers@, random_coeff_powers@),
            accum.wf(),
            accum.len_s() == n,
            target == Seq::new(
                pow2(eval_log_size as nat),
                |row: int|
                    accumulated(
                        component_eval,
                        at,
                        accum.elements(),
                        denom_inv@[row / pow2(trace_log_size as nat) as int],
                        row,
                    ),
            ),
            r.wf(),
            r.elements() == target.take(row as int),
        decreases n - row,
    {
        let eval = BatchCpuDomainEvaluator::new(
            trace_cols,
            row,
            batch_powers.as_slice(),
            trace_log_size,
            eval_log_size,
            log_size,
            claimed_sum,
        );
        let ghost start = eval;
        assert(batch_context(start, random_coeff_powers@) == at);
        let done = component_eval.evaluate(eval);
        let mut k: usize = 0;
        while k < BATCH_ROWS
            invariant
                k <= 32,
                row + 32 <= n,
                n == pow2(eval_log_size as nat),
                per_inverse == pow2(trace_log_size as nat),
                per_inverse >= 1,
                n == per_inverse * ratio,
                ratio == denom_inv@.len(),
                accum.wf(),
                accum.len_s() == n,
                start.row == row,
                batch_context(start, random_coeff_powers@) == at,
                is_broadcast(start.random_coeff_powers@, random_coeff_powers@),
                forall|powers: Seq<QM31>, k: int|
                    #[trigger] is_broadcast(start.random_coeff_powers@, powers) && 0 <= k < 32
                        ==> #[trigger] done.row_res.lane(k) == component_eval.row_sum(
                        batch_context(start, powers),
                        start.row + k,
                    ),
                target == Seq::new(
                    pow2(eval_log_size as nat),
                    |row: int|
                        accumulated(
                            component_eval,
                            at,
                            accum.elements(),
                            denom_inv@[row / pow2(trace_log_size as nat) as int],
                            row,
                        ),
                ),
                r.wf(),
                r.elements() == target.take(row + k),
            decreases 32 - k,
        {
            let lane_row = row + k;
            let lane_res = done.row_res.0[k];
            assert(lane_res == done.row_res.lane(k as int));
            proof {
                lemma_row_inverse(lane_row as int, per_inverse as int, ratio as int);
            }
            let row_denom_inv = denom_inv[lane_row / per_inverse];
            r.push(accum.at(lane_row).add(lane_res.mul_m31(row_denom_inv)));
            k += 1;
            assert(r.elements() =~= target.take(row + k));
        }
        row += BATCH_ROWS;
    }
    while row < n
        invariant
            row <= n,
            n == pow2(eval_log_size as nat),
            per_inverse == pow2(trace_log_size as nat),
            per_inverse >= 1,
            n == per_inverse * ratio,
            ratio == denom_inv@.len(),
            trace_log_size <= eval_log_size <= 30,
            trace_cols@.len() <= 4,
            covers(trace_cols@, eval_log_size as nat),
            component_eval.fits(at),
            at == (RowContext {
                trace: trace_cols@,
                powers: random_coeff_powers@,
                domain_log: trace_log_size as nat,
                eval_log: eval_log_size as nat,
                claimed_sum,
            }),
            accum.wf(),
            accum.len_s() == n,
            target == Seq::new(
                pow2(eval_log_size as nat),
                |row: int|
                    accumulated(
                        component_eval,
                        at,
                        accum.elements(),
                        denom_inv@[row / pow2(trace_log_size as nat) as int],
                        row,
                    ),
            ),
            r.wf(),
            r.elements() == target.take(row as int),
        decreases n - row,
    {
        let eval = CpuDomainEvaluator::new(
            trace_cols,
            row,
            random_coeff_powers.as_slice(),
            trace_log_size,
            eval_log_size,
            claimed_sum,
        );
        assert(eval.context() == at);
        let row_res = component_eval.evaluate_row(eval).row_res;
        proof {
            lemma_row_inverse(row as int, per_inverse as int, ratio as int);
        }
        let row_denom_inv = denom_inv[row / per_inverse];
        r.push(accum.at(row).add(row_res.mul_m31(row_denom_inv)));
        row += 1;
        assert(r.elements() =~= target.take(row as int));
    }
    assert(target.take(n as int) =~= target);
    r
}

/// The rows of a vector share a denominator.
proof fn lemma_vector_inverse(vec_row: int, k: int, t: nat)
    requires
        t >= 5,
        vec_row >= 0,
        0 <= k < 32,
    ensures
        (32 * vec_row + k) / pow2(t) as int == vec_row / pow2((t - 5) as nat) as int,
{
    lemma2_to64();
    vstd::arithmetic::power2::lemma_pow2_adds(5, (t - 5) as nat);
    vstd::arithmetic::power2::lemma_pow2_pos((t - 5) as nat);
    vstd::arithmetic::div_mod::lemma_div_denominator(
        32 * vec_row + k,
        32,
        pow2((t - 5) as nat) as int,
    );
    assert((32 * vec_row + k) / 32 == vec_row);
}

/// Evaluates the constraints vector by vector, and adds the quotients to a column.
pub fn accumulate_pointwise_simd<E: FrameworkEval>(
    component_eval: &E,
    claimed_sum: QM31,
    trace_cols: &TraceColumns<'_>,
    eval_log_size: u32,
    trace_log_size: u32,
    denom_inv: &Vec<M31>,
    random_coeff_powers: &Vec<QM31>,
    accum: &SecureColumnByCoords,
) -> (r: SecureColumnByCoords)
    requires
        5 <= trace_log_size <= eval_log_size <= 30,
        trace_cols@.len() <= MAX_N_INTERACTIONS,
        covers(trace_cols@, eval_log_size as nat),
        component_eval.log_size_s() <= 30,
        component_eval.fits(
            RowContext {
                trace: trace_cols@,
                powers: random_coeff_powers@,
                domain_log: trace_log_size as nat,
                eval_log: eval_log_size as nat,
                claimed_sum,
            },
        ),
        denom_inv@.len() == pow2((eval_log_size - trace_log_size) as nat),
        accum.wf(),
        accum.len_s() == pow2(eval_log_size as nat),
    ensures
        r.wf(),
        r.elements() == Seq::new(
            pow2(eval_log_size as nat),
            |row: int|
                accumulated(
                    component_eval,
                    RowContext {
                        trace: trace_cols@,
                        powers: random_coeff_powers@,
                        domain_log: trace_log_size as nat,
                        eval_log: eval_log_size as nat,
                        claimed_sum,
                    },
                    accum.elements(),
                    denom_inv@[row / pow2(trace_log_size as nat) as int],
                    row,
                ),
        ),
{
    let n_vec_rows = pow2_usize(eval_log_size - LOG_N_LANES - LOG_N_VERY_PACKED_ELEMS);
    let per_inverse = pow2_usize(trace_log_size - LOG_N_LANES - LOG_N_VERY_PACKED_ELEMS);
    let ghost at = RowContext {
        trace: trace_cols@,
        powers: random_coeff_powers@,
        domain_log: trace_log_size as nat,
        eval_log: eval_log_size as nat,
        claimed_sum,
    };
    let ghost target = Seq::new(
        pow2(eval_log_size as nat),
        |row: int|
            accumulated(
                component_eval,
                at,
                accum.elements(),
                denom_inv@[row / pow2(trace_log_size as nat) as int],
                row,
            ),
    );
    let ghost ratio = pow2((eval_log_size - trace_log_size) as nat);
    let ghost n = pow2(eval_log_size as nat);
    proof {
        lemma2_to64();
        vstd::arithmetic::power2::lemma_pow2_adds(5, (eval_log_size - 5) as nat);
        vstd::arithmetic::power2::lemma_pow2_adds(
            (trace_log_size - 5) as nat,
            (eval_log_size - trace_log_size) as nat,
        );
        lemma_pow2_bound(eval_log_size as nat);
    }
    let broadcast_powers = SimdDomainEvaluator::broadcast_random_coeff_powers(
        random_coeff_powers.as_slice(),
    );
    assert(is_broadcast(broadcast_powers@, random_coeff_powers@));
    let log_size = component_eval.log_size();
    let mut r = SecureColumnByCoords::new_empty();
    let mut vec_row: usize = 0;
    while vec_row < n_vec_rows
        invariant
            vec_row <= n_vec_rows,
            n == 32 * n_vec_rows,
            n == pow2(eval_log_size as nat),
            n <= 0x8000_0000,
            per_inverse == pow2((trace_log_size - 5) as nat),
            per_inverse >= 1,
            n_vec_rows == per_inverse * ratio,
            ratio == denom_inv@.len(),
            5 <= trace_log_size <= eval_log_size <= 30,
            trace_cols@.len() <= 4,
            covers(trace_cols@, eval_log_size as nat),
            log_size == component_eval.log_size_s(),
            log_size <= 30,
            component_eval.fits(at),
            at == (RowContext {
                trace: trace_cols@,
                powers: random_coeff_powers@,
                domain_log: trace_log_size as nat,
                eval_log: eval_log_size as nat,
                claimed_sum,
            }),
            is_broadcast(broadcast_powers@, random_coeff_powers@),
            accum.wf(),
            accum.len_s() == n,
            target == Seq::new(
                pow2(eval_log_size as nat),
                |row: int|
                    accumulated(
                        component_eval,
                        at,
                        accum.elements(),
                        denom_inv@[row / pow2(trace_log_size as nat) as int],
                        row,
                    ),
            ),
            r.wf(),
            r.elements() == target.take(32 * vec_row),
        decreases n_vec_rows - vec_row,
    {
        let eval = SimdDomainEvaluator::new(
            trace_cols,
            vec_row,
            broadcast_powers.as_slice(),
            trace_log_size,
            eval_log_size,
            log_size,
            claimed_sum,
        );
        let ghost start = eval.lanes;
        assert(batch_context(start, random_coeff_powers@) == at);
        let done = component_eval.evaluate(eval.lanes);
        proof {
            lemma_row_inverse(vec_row as int, per_inverse as int, ratio as int);
        }
        let row_denom_inv = denom_inv[vec_row / per_inverse];
        let mut k: usize = 0;
        while k < BATCH_ROWS
            invariant
                k <= 32,
                vec_row < n_vec_rows,
                n == 32 * n_vec_rows,
                n == pow2(eval_log_size as nat),
                n <= 0x8000_0000,
                trace_log_size >= 5,
                per_inverse == pow2((trace_log_size - 5) as nat),
                row_denom_inv == denom_inv@[vec_row as int / per_inverse as int],
                accum.wf(),
                accum.len_s() == n,
                start.row == 32 * vec_row,
                batch_context(start, random_coeff_powers@) == at,
                is_broadcast(start.random_coeff_powers@, random_coeff_powers@),
                forall|powers: Seq<QM31>, k: int|
                    #[trigger] is_broadcast(start.random_coeff_powers@, powers) && 0 <= k < 32
                        ==> #[trigger] done.row_res.lane(k) == component_eval.row_sum(
                        batch_context(start, powers),
                        start.row + k,
                    ),
                target == Seq::new(
                    pow2(eval_log_size as nat),
                    |row: int|
                        accumulated(
                            component_eval,
                            at,
                            accum.elements(),
                            denom_inv@[row / pow2(trace_log_size as nat) as int],
                            row,
                        ),
                ),
                r.wf(),
                r.elements() == target.take(32 * vec_row + k),
            decreases 32 - k,
        {
            let row = vec_row * BATCH_ROWS + k;
            let lane_res = done.row_res.0[k];
            assert(lane_res == done.row_res.lane(k as int));
            proof {
                lemma_vector_inverse(vec_row as int, k as int, trace_log_size as nat);
            }
            r.push(accum.at(row).add(lane_res.mul_m31(row_denom_inv)));
            k += 1;
            assert(r.elements() =~= target.take(32 * vec_row + k));
        }
        vec_row += 1;
    }
    assert(target.take(n as int) =~= target);
    r
}

proof fn lemma_row_inverse(row: int, per: int, ratio: int)
    requires
        0 <= row < per * ratio,
        per >= 1,
    ensures
        0 <= row / per < ratio,
{
    vstd::arithmetic::div_mod::lemma_fundamental_div_mod(row, per);
    vstd::arithmetic::div_mod::lemma_mod_bound(row, per);
    assert(0 <= row / per < ratio) by (nonlinear_arith)
        requires
            row == per * (row / per) + row % per,
            0 <= row % per < per,
            0 <= row < per * ratio,
            per >= 1,
    ;
}

/// A component: its constraints and where its columns lie.
pub struct FrameworkComponent<E> {
    pub eval: E,
    /// Which columns of each tree are the component's.
    pub trace_locations: Vec<TreeSubspan>,
    /// Which preprocessed columns the component reads.
    pub preprocessed_column_indices: Vec<usize>,
    pub claimed_sum: QM31,
    pub n_constraints: usize,
    pub max_constraint_log_degree_bound: u32,
}

impl<E: FrameworkEval> FrameworkComponent<E> {
    /// The component's columns lie inside the trees.
    pub open spec fn located_in(self, polys: Seq<Vec<&Poly>>) -> bool {
        &&& self.trace_locations@.len() <= polys.len()
        &&& forall|t: int|
            0 <= t < self.trace_locations@.len() ==> (
            #[trigger] self.trace_locations@[t]).tree_index == t && self.trace_locations@[t].col_start
                <= self.trace_locations@[t].col_end <= polys[t]@.len()
        &&& self.trace_locations@.len() > 0 ==> forall|c: int|
            0 <= c < self.preprocessed_column_indices@.len() ==> (
            #[trigger] self.preprocessed_column_indices@[c]) < polys[0]@.len()
    }

    /// How many columns of a tree are the component's.
    pub open spec fn width(self, t: int) -> nat {
        if t == PREPROCESSED_TRACE_IDX {
            self.preprocessed_column_indices@.len()
        } else {
            (self.trace_locations@[t].col_end - self.trace_locations@[t].col_start) as nat
        }
    }

    /// The component's column `c` of tree `t`.
    pub open spec fn column(self, polys: Seq<Vec<&Poly>>, t: int, c: int) -> Poly {
        if t == PREPROCESSED_TRACE_IDX {
            *polys[t]@[self.preprocessed_column_indices@[c] as int]
        } else {
            *polys[t]@[self.trace_locations@[t].col_start + c]
        }
    }

    /// The component's columns, tree by tree.
    pub fn component_polys<'t>(&self, trace: &Trace<'t>) -> (r: Vec<Vec<&'t Poly>>)
        requires
            self.located_in(trace.polys@),
        ensures
            r@.len() == self.trace_locations@.len(),
            forall|t: int| 0 <= t < r@.len() ==> (#[trigger] r@[t])@.len() == self.width(t),
            forall|t: int, c: int|
                #![trigger r@[t]@[c]]
                0 <= t < r@.len() && 0 <= c < r@[t]@.len() ==> *r@[t]@[c] == self.column(
                    trace.polys@,
                    t,
                    c,
                ),
    {
        let mut r: Vec<Vec<&'t Poly>> = Vec::new();
        let mut t: usize = 0;
        while t < self.trace_locations.len()
            invariant
                t <= self.trace_locations@.len(),
                self.located_in(trace.polys@),
                r@.len() == t,
                forall|s: int| 0 <= s < t ==> (#[trigger] r@[s])@.len() == self.width(s),
                forall|s: int, c: int|
                    #![trigger r@[s]@[c]]
                    0 <= s < t && 0 <= c < r@[s]@.len() ==> *r@[s]@[c] == self.column(
                        trace.polys@,
                        s,
                        c,
                    ),
            decreases self.trace_locations@.len() - t,
        {
            assert(self.trace_locations@[t as int].tree_index == t);
            let mut tree: Vec<&'t Poly> = Vec::new();
            if t == PREPROCESSED_TRACE_IDX {
                let mut c: usize = 0;
                while c < self.preprocessed_column_indices.len()
                    invariant
                        c <= self.preprocessed_column_indices@.len(),
                        t == 0,
                        t < self.trace_locations@.len(),
                        self.located_in(trace.polys@),
                        tree@.len() == c,
                        forall|b: int|
                            0 <= b < c ==> *#[trigger] tree@[b] == self.column(
                                trace.polys@,
                                t as int,
                                b,
                            ),
                    decreases self.preprocessed_column_indices@.len() - c,
                {
                    let index = self.preprocessed_column_indices[c];
                    tree.push(trace.polys[t][index]);
                    c += 1;
                }
            } else {
                let span = &self.trace_locations[t];
                let start = span.col_start;
                let end = span.col_end;
                let mut c: usize = start;
                while c < end
                    invariant
                        start <= c <= end,
                        t != 0,
                        t < self.trace_locations@.len(),
                        self.located_in(trace.polys@),
                        start == self.trace_locations@[t as int].col_start,
                        end == self.trace_locations@[t as int].col_end,
                        end <= trace.polys@[t as int]@.len(),
                        tree@.len() == c - start,
                        forall|b: int|
                            0 <= b < c - start ==> *#[trigger] tree@[b] == self.column(
                                trace.polys@,
                                t as int,
                                b,
                            ),
                    decreases end - c,
                {
                    tree.push(trace.polys[t][c]);
                    c += 1;
                }
            }
            let ghost before = r@;
            r.push(tree);
            assert forall|s: int, c: int| 0 <= s < t + 1 && 0 <= c < r@[s]@.len() implies *(
            #[trigger] r@[s]@[c]) == self.column(trace.polys@, s, c) by {
                if s < t {
                    assert(r@[s] == before[s]);
                }
            }
            t += 1;
        }
        r
    }
}

/// The column on the evaluation domain: the committed one, or the polynomial's values.
pub open spec fn on_eval_domain(
    poly: Poly,
    mode: EvaluationMode,
    domain: CircleDomain,
    column: CircleEvaluation,
) -> bool {
    match mode {
        EvaluationMode::SubDomain { .. } => column == poly.evals,
        EvaluationMode::ExtendToEvalDomain => column.domain == domain && match poly.coeffs {
            Some(p) => evaluates(p.coeffs@, p.log_size as nat, column),
            None => false,
        },
    }
}

/// The columns can be had on the evaluation domain.
pub open spec fn available(poly: Poly, mode: EvaluationMode, log_size: nat) -> bool {
    match mode {
        EvaluationMode::SubDomain { .. } => pow2(log_size) <= poly.evals.values@.len(),
        EvaluationMode::ExtendToEvalDomain => match poly.coeffs {
            Some(p) => p.wf() && p.log_size <= log_size,
            None => false,
        },
    }
}

/// All columns on the evaluation domain, tree by tree.
pub open spec fn all_on_eval_domain(
    polys: Seq<Vec<&Poly>>,
    mode: EvaluationMode,
    domain: CircleDomain,
    columns: Seq<Vec<&CircleEvaluation>>,
) -> bool {
    &&& columns.len() == polys.len()
    &&& forall|t: int|
        0 <= t < polys.len() ==> (#[trigger] columns[t])@.len() == polys[t]@.len()
    &&& forall|t: int, c: int|
        #![trigger columns[t]@[c]]
        0 <= t < polys.len() && 0 <= c < columns[t]@.len() ==> on_eval_domain(
            *polys[t]@[c],
            mode,
            domain,
            *columns[t]@[c],
        )
}

/// The values of the columns on a canonic domain.
fn extended_columns(polys: &Vec<Vec<&Poly>>, domain: CircleDomain) -> (r: Vec<Vec<CircleEvaluation>>)
    requires
        1 <= domain.log_size_s() <= 30,
        domain == canonic_domain(domain.log_size_s()),
        forall|t: int, c: int|
            #![trigger polys@[t]@[c]]
            0 <= t < polys@.len() && 0 <= c < polys@[t]@.len() ==> available(
                *polys@[t]@[c],
                EvaluationMode::ExtendToEvalDomain,
                domain.log_size_s(),
            ),
    ensures
        r@.len() == polys@.len(),
        forall|t: int| 0 <= t < r@.len() ==> (#[trigger] r@[t])@.len() == polys@[t]@.len(),
        forall|t: int, c: int|
            #![trigger r@[t]@[c]]
            0 <= t < r@.len() && 0 <= c < r@[t]@.len() ==> on_eval_domain(
                *polys@[t]@[c],
                EvaluationMode::ExtendToEvalDomain,
                domain,
                r@[t]@[c],
            ),
{
    proof {
        let log = domain.log_size_s();
        crate::poly::domain::lemma_canonic_domain_wf(log);
        lemma_half_odds_nonzero((log - 1) as nat);
        lemma_step_small(log + 1);
        lemma2_to64();
        let init = domain.half_coset.initial_index.0 as int;
        assert(pow2(0) * init == init);
        vstd::arithmetic::div_mod::lemma_small_mod(
            init as nat,
            crate::circle::circle_order(),
        );
        assert((log - 1 + 2) as nat == log + 1);
    }
    let twiddles = precompute_twiddles(domain.half_coset);
    let mut r: Vec<Vec<CircleEvaluation>> = Vec::new();
    let mut t: usize = 0;
    while t < polys.len()
        invariant
            t <= polys@.len(),
            domain.wf(),
            twiddles.wf(),
            domain.half_coset.doubling_of_s(twiddles.root_coset),
            forall|t: int, c: int|
                #![trigger polys@[t]@[c]]
                0 <= t < polys@.len() && 0 <= c < polys@[t]@.len() ==> available(
                    *polys@[t]@[c],
                    EvaluationMode::ExtendToEvalDomain,
                    domain.log_size_s(),
                ),
            r@.len() == t,
            forall|s: int| 0 <= s < t ==> (#[trigger] r@[s])@.len() == polys@[s]@.len(),
            forall|s: int, c: int|
                #![trigger r@[s]@[c]]
                0 <= s < t && 0 <= c < r@[s]@.len() ==> on_eval_domain(
                    *polys@[s]@[c],
                    EvaluationMode::ExtendToEvalDomain,
                    domain,
                    r@[s]@[c],
                ),
        decreases polys@.len() - t,
    {
        let mut tree: Vec<CircleEvaluation> = Vec::new();
        let mut c: usize = 0;
        while c < polys[t].len()
            invariant
                c <= polys@[t as int]@.len(),
                t < polys@.len(),
                domain.wf(),
                twiddles.wf(),
                domain.half_coset.doubling_of_s(twiddles.root_coset),
                forall|t: int, c: int|
                    #![trigger polys@[t]@[c]]
                    0 <= t < polys@.len() && 0 <= c < polys@[t]@.len() ==> available(
                        *polys@[t]@[c],
                        EvaluationMode::ExtendToEvalDomain,
                        domain.log_size_s(),
                    ),
                tree@.len() == c,
                forall|b: int|
                    0 <= b < c ==> on_eval_domain(
                        *polys@[t as int]@[b],
                        EvaluationMode::ExtendToEvalDomain,
                        domain,
                        #[trigger] tree@[b],
                    ),
            decreases polys@[t as int]@.len() - c,
        {
            let poly = polys[t][c];
            assert(available(
                *polys@[t as int]@[c as int],
                EvaluationMode::ExtendToEvalDomain,
                domain.log_size_s(),
            ));
            if let Some(p) = &poly.coeffs {
                tree.push(evaluate(p, domain, &twiddles));
            }
            c += 1;
        }
        let ghost before = r@;
        r.push(tree);
        assert forall|s: int, c: int| 0 <= s < t + 1 && 0 <= c < r@[s]@.len() implies on_eval_domain(
            *polys@[s]@[c],
            EvaluationMode::ExtendToEvalDomain,
            domain,
            #[trigger] r@[s]@[c],
        ) by {
            if s < t {
                assert(r@[s] == before[s]);
            }
        }
        t += 1;
    }
    r
}

/// References to the columns on the evaluation domain.
fn get_trace_columns<'a>(
    polys: &Vec<Vec<&'a Poly>>,
    extended: &'a Vec<Vec<CircleEvaluation>>,
    domain: CircleDomain,
    mode: EvaluationMode,
) -> (r: Vec<Vec<&'a CircleEvaluation>>)
    requires
        mode == EvaluationMode::ExtendToEvalDomain ==> {
            &&& extended@.len() == polys@.len()
            &&& forall|t: int|
                0 <= t < extended@.len() ==> (#[trigger] extended@[t])@.len() == polys@[t]@.len()
            &&& forall|t: int, c: int|
                #![trigger extended@[t]@[c]]
                0 <= t < extended@.len() && 0 <= c < extended@[t]@.len() ==> on_eval_domain(
                    *polys@[t]@[c],
                    mode,
                    domain,
                    extended@[t]@[c],
                )
        },
    ensures
        all_on_eval_domain(polys@, mode, domain, r@),
{
    let mut r: Vec<Vec<&'a CircleEvaluation>> = Vec::new();
    let mut t: usize = 0;
    while t < polys.len()
        invariant
            t <= polys@.len(),
            mode == EvaluationMode::ExtendToEvalDomain ==> {
                &&& extended@.len() == polys@.len()
                &&& forall|t: int|
                    0 <= t < extended@.len() ==> (#[trigger] extended@[t])@.len()
                        == polys@[t]@.len()
                &&& forall|t: int, c: int|
                    #![trigger extended@[t]@[c]]
                    0 <= t < extended@.len() && 0 <= c < extended@[t]@.len() ==> on_eval_domain(
                        *polys@[t]@[c],
                        mode,
                        domain,
                        extended@[t]@[c],
                    )
            },
            r@.len() == t,
            forall|s: int| 0 <= s < t ==> (#[trigger] r@[s])@.len() == polys@[s]@.len(),
            forall|s: int, c: int|
                #![trigger r@[s]@[c]]
                0 <= s < t && 0 <= c < r@[s]@.len() ==> on_eval_domain(
                    *polys@[s]@[c],
                    mode,
                    domain,
                    *r@[s]@[c],
                ),
        decreases polys@.len() - t,
    {
        let mut tree: Vec<&'a CircleEvaluation> = Vec::new();
        let n = polys[t].len();
        let mut c: usize = 0;
        while c < n
            invariant
                c <= n == polys@[t as int]@.len(),
                t < polys@.len(),
                mode == EvaluationMode::ExtendToEvalDomain ==> {
                    &&& extended@.len() == polys@.len()
                    &&& extended@[t as int]@.len() == n
                    &&& forall|t: int, c: int|
                        #![trigger extended@[t]@[c]]
                        0 <= t < extended@.len() && 0 <= c < extended@[t]@.len() ==> on_eval_domain(
                            *polys@[t]@[c],
                            mode,
                            domain,
                            extended@[t]@[c],
                        )
                },
                tree@.len() == c,
                forall|b: int|
                    0 <= b < c ==> on_eval_domain(
                        *polys@[t as int]@[b],
                        mode,
                        domain,
                        *#[trigger] tree@[b],
                    ),
            decreases n - c,
        {
            match mode {
                EvaluationMode::SubDomain { .. } => {
                    let poly: &'a Poly = polys[t][c];
                    tree.push(&poly.evals);
                },
                EvaluationMode::ExtendToEvalDomain => {
                    assert(on_eval_domain(
                        *polys@[t as int]@[c as int],
                        mode,
                        domain,
                        extended@[t as int]@[c as int],
                    ));
                    tree.push(&extended[t][c]);
                },
            }
            c += 1;
        }
        let ghost before = r@;
        r.push(tree);
        assert forall|s: int, c: int| 0 <= s < t + 1 && 0 <= c < r@[s]@.len() implies on_eval_domain(
            *polys@[s]@[c],
            mode,
            domain,
            *#[trigger] r@[s]@[c],
        ) by {
            if s < t {
                assert(r@[s] == before[s]);
            }
        }
        t += 1;
    }
    r
}

fn reversed(powers: &Vec<QM31>) -> (r: Vec<QM31>)
    ensures
        r@ == powers@.reverse(),
{
    let n = powers.len();
    let mut r: Vec<QM31> = Vec::new();
    let mut i: usize = 0;
    while i < n
        invariant
            i <= n == powers@.len(),
            r@ == powers@.reverse().take(i as int),
        decreases n - i,
    {
        r.push(powers[n - 1 - i]);
        i += 1;
        assert(r@ =~= powers@.reverse().take(i as int));
    }
    assert(r@ =~= powers@.reverse());
    r
}

impl<E: FrameworkEval> FrameworkComponent<E> {
    /// The component's columns on the evaluation domain.
    pub open spec fn trace_on(
        self,
        polys: Seq<Vec<&Poly>>,
        mode: EvaluationMode,
        domain: CircleDomain,
        columns: Seq<Vec<&CircleEvaluation>>,
    ) -> bool {
        &&& columns.len() == self.trace_locations@.len()
        &&& forall|t: int| 0 <= t < columns.len() ==> (#[trigger] columns[t])@.len() == self.width(t)
        &&& forall|t: int, c: int|
            #![trigger columns[t]@[c]]
            0 <= t < columns.len() && 0 <= c < columns[t]@.len() ==> on_eval_domain(
                self.column(polys, t, c),
                mode,
                domain,
                *columns[t]@[c],
            )
    }

    pub open spec fn eval_domain(self, mode: EvaluationMode) -> CircleDomain {
        eval_domain_s(self.max_constraint_log_degree_bound as nat, mode.expansion())
    }

    pub open spec fn context<'t>(
        self,
        columns: Seq<Vec<&'t CircleEvaluation>>,
        powers: Seq<QM31>,
    ) -> RowContext<'t> {
        RowContext {
            trace: columns,
            powers: powers.reverse(),
            domain_log: self.eval.log_size_s(),
            eval_log: self.max_constraint_log_degree_bound as nat,
            claimed_sum: self.claimed_sum,
        }
    }

    /// `after` is `before` with the constraint quotients added in every row: the weighted sum of
    /// the constraints, over the value of what vanishes on the trace.
    pub open spec fn adds_quotients(
        self,
        columns: Seq<Vec<&CircleEvaluation>>,
        mode: EvaluationMode,
        powers: Seq<QM31>,
        trace_coset: CanonicCoset,
        before: Seq<QM31>,
        after: Seq<QM31>,
    ) -> bool {
        &&& after.len() == before.len()
        &&& forall|row: int|
            0 <= row < before.len() ==> #[trigger] after[row] == accumulated(
                &self.eval,
                self.context(columns, powers),
                before,
                row_denominator_inverse(trace_coset, self.eval_domain(mode), row),
                row,
            )
    }

    fn quotients_on_domain(
        &self,
        trace: &Trace<'_>,
        mode: EvaluationMode,
        random_coeff_powers: &Vec<QM31>,
        accum: SecureColumnByCoords,
        vectorized: bool,
    ) -> (r: SecureColumnByCoords)
        requires
            self.located_in(trace.polys@),
            self.trace_locations@.len() <= MAX_N_INTERACTIONS,
            1 <= self.eval.log_size_s() <= self.max_constraint_log_degree_bound,
            self.eval.log_size_s() < self.max_constraint_log_degree_bound + mode.expansion(),
            self.max_constraint_log_degree_bound + mode.expansion() <= 30,
            forall|t: int, c: int|
                0 <= t < self.trace_locations@.len() && 0 <= c < self.width(t) ==> available(
                    #[trigger] self.column(trace.polys@, t, c),
                    mode,
                    self.max_constraint_log_degree_bound as nat,
                ),
            forall|columns: Seq<Vec<&CircleEvaluation>>|
                #[trigger] self.trace_on(
                    trace.polys@,
                    mode,
                    self.eval_domain(mode),
                    columns,
                ) ==> self.eval.fits(self.context(columns, random_coeff_powers@)),
            accum.wf(),
            accum.len_s() == pow2(self.max_constraint_log_degree_bound as nat),
        ensures
            r.wf(),
            self.n_constraints == 0 ==> r == accum,
            self.n_constraints > 0 ==> exists|
                columns: Seq<Vec<&CircleEvaluation>>,
                trace_coset: CanonicCoset,
            |
                #[trigger] self.trace_on(trace.polys@, mode, self.eval_domain(mode), columns)
                    && trace_coset.wf() && trace_coset.coset.log_size == self.eval.log_size_s()
                    && #[trigger] self.adds_quotients(
                    columns,
                    mode,
                    random_coeff_powers@,
                    trace_coset,
                    accum.elements(),
                    r.elements(),
                ),
    {
        if self.n_constraints == 0 {
            return accum;
        }
        let trace_log = self.eval.log_size();
        let eval_log = self.max_constraint_log_degree_bound;
        let log_expansion: u32 = match mode {
            EvaluationMode::SubDomain { log_expansion } => log_expansion,
            EvaluationMode::ExtendToEvalDomain => 0,
        };
        let trace_domain = CanonicCoset::new(trace_log);
        let eval_domain = subdomain_eval_domain(eval_log, log_expansion);
        let polys = self.component_polys(trace);
        proof {
            assert forall|t: int, c: int|
                #![trigger polys@[t]@[c]]
                0 <= t < polys@.len() && 0 <= c < polys@[t]@.len() implies available(
                *polys@[t]@[c],
                mode,
                eval_log as nat,
            ) by {
                assert(polys@[t]@.len() == self.width(t));
                assert(available(self.column(trace.polys@, t, c), mode, eval_log as nat));
            }
        }
        let extended: Vec<Vec<CircleEvaluation>> = match mode {
            EvaluationMode::SubDomain { .. } => Vec::new(),
            EvaluationMode::ExtendToEvalDomain => extended_columns(&polys, eval_domain),
        };
        let columns = get_trace_columns(&polys, &extended, eval_domain, mode);
        let denom_inv = denominator_inverses(trace_domain, eval_domain, log_expansion);
        let powers = reversed(random_coeff_powers);
        proof {
            assert forall|t: int| 0 <= t < columns@.len() implies (#[trigger] columns@[t])@.len()
                == self.width(t) by {
                assert(polys@[t]@.len() == self.width(t));
            }
            assert forall|t: int, c: int|
                #![trigger columns@[t]@[c]]
                0 <= t < columns@.len() && 0 <= c < columns@[t]@.len() implies on_eval_domain(
                self.column(trace.polys@, t, c),
                mode,
                self.eval_domain(mode),
                *columns@[t]@[c],
            ) by {
                assert(*polys@[t]@[c] == self.column(trace.polys@, t, c));
            }
            assert(self.trace_on(trace.polys@, mode, self.eval_domain(mode), columns@));
            assert(covers(columns@, eval_log as nat)) by {
                assert forall|t: int, c: int|
                    0 <= t < columns@.len() && 0 <= c < (#[trigger] columns@[t])@.len() implies pow2(
                    eval_log as nat,
                ) <= (#[trigger] columns@[t]@[c]).values@.len() by {
                    assert(available(*polys@[t]@[c], mode, eval_log as nat));
                    assert(on_eval_domain(*polys@[t]@[c], mode, eval_domain, *columns@[t]@[c]));
                }
            }
        }
        let r = if vectorized && trace_log >= LOG_N_LANES + LOG_N_VERY_PACKED_ELEMS {
            accumulate_pointwise_simd(
                &self.eval,
                self.claimed_sum,
                &columns,
                eval_log,
                trace_log,
                &denom_inv,
                &powers,
                &accum,
            )
        } else {
            accumulate_pointwise_cpu(
                &self.eval,
                self.claimed_sum,
                &columns,
                eval_log,
                trace_log,
                &denom_inv,
                &powers,
                &accum,
            )
        };
        proof {
            assert forall|row: int| 0 <= row < accum.elements().len() implies #[trigger] r.elements()[row]
                == accumulated(
                &self.eval,
                self.context(columns@, random_coeff_powers@),
                accum.elements(),
                row_denominator_inverse(trace_domain, self.eval_domain(mode), row),
                row,
            ) by {
                assert(denom_inv@[row / pow2(trace_log as nat) as int] == row_denominator_inverse(
                    trace_domain,
                    eval_domain,
                    row,
                ));
            }
            assert(self.adds_quotients(
                columns@,
                mode,
                random_coeff_powers@,
                trace_domain,
                accum.elements(),
                r.elements(),
            ));
        }
        r
    }

    /// Adds the component's constraint quotients on its evaluation domain to a column. The last
    /// power of the random coefficient weighs the first constraint.
    pub fn evaluate_constraint_quotients_on_domain(
        &self,
        trace: &Trace<'_>,
        mode: EvaluationMode,
        random_coeff_powers: &Vec<QM31>,
        accum: SecureColumnByCoords,
    ) -> (r: SecureColumnByCoords)
        requires
            self.located_in(trace.polys@),
            self.trace_locations@.len() <= MAX_N_INTERACTIONS,
            1 <= self.eval.log_size_s() <= self.max_constraint_log_degree_bound,
            self.eval.log_size_s() < self.max_constraint_log_degree_bound + mode.expansion(),
            self.max_constraint_log_degree_bound + mode.expansion() <= 30,
            forall|t: int, c: int|
                0 <= t < self.trace_locations@.len() && 0 <= c < self.width(t) ==> available(
                    #[trigger] self.column(trace.polys@, t, c),
                    mode,
                    self.max_constraint_log_degree_bound as nat,
                ),
            forall|columns: Seq<Vec<&CircleEvaluation>>|
                #[trigger] self.trace_on(
                    trace.polys@,
                    mode,
                    self.eval_domain(mode),
                    columns,
                ) ==> self.eval.fits(self.context(columns, random_coeff_powers@)),
            accum.wf(),
            accum.len_s() == pow2(self.max_constraint_log_degree_bound as nat),
        ensures
            r.wf(),
            self.n_constraints == 0 ==> r == accum,
            self.n_constraints > 0 ==> exists|
                columns: Seq<Vec<&CircleEvaluation>>,
                trace_coset: CanonicCoset,
            |
                #[trigger] self.trace_on(trace.polys@, mode, self.eval_domain(mode), columns)
                    && trace_coset.wf() && trace_coset.coset.log_size == self.eval.log_size_s()
                    && #[trigger] self.adds_quotients(
                    columns,
                    mode,
                    random_coeff_powers@,
                    trace_coset,
                    accum.elements(),
                    r.elements(),
                ),
    {
        self.quotients_on_domain(trace, mode, random_coeff_powers, accum, false)
    }

    /// The same, in vectors of rows. A trace shorter than a vector is evaluated row by row.
    pub fn evaluate_constraint_quotients_on_domain_simd(
        &self,
        trace: &Trace<'_>,
        mode: EvaluationMode,
        random_coeff_powers: &Vec<QM31>,
        accum: SecureColumnByCoords,
    ) -> (r: SecureColumnByCoords)
        requires
            self.located_in(trace.polys@),
            self.trace_locations@.len() <= MAX_N_INTERACTIONS,
            1 <= self.eval.log_size_s() <= self.max_constraint_log_degree_bound,
            self.eval.log_size_s() < self.max_constraint_log_degree_bound + mode.expansion(),
            self.max_constraint_log_degree_bound + mode.expansion() <= 30,
            forall|t: int, c: int|
                0 <= t < self.trace_locations@.len() && 0 <= c < self.width(t) ==> available(
                    #[trigger] self.column(trace.polys@, t, c),
                    mode,
                    self.max_constraint_log_degree_bound as nat,
                ),
            forall|columns: Seq<Vec<&CircleEvaluation>>|
                #[trigger] self.trace_on(
                    trace.polys@,
                    mode,
                    self.eval_domain(mode),
                    columns,
                ) ==> self.eval.fits(self.context(columns, random_coeff_powers@)),
            accum.wf(),
            accum.len_s() == pow2(self.max_constraint_log_degree_bound as nat),
        ensures
            r.wf(),
            self.n_constraints == 0 ==> r == accum,
            self.n_constraints > 0 ==> exists|
                columns: Seq<Vec<&CircleEvaluation>>,
                trace_coset: CanonicCoset,
            |
                #[trigger] self.trace_on(trace.polys@, mode, self.eval_domain(mode), columns)
                    && trace_coset.wf() && trace_coset.coset.log_size == self.eval.log_size_s()
                    && #[trigger] self.adds_quotients(
                    columns,
                    mode,
                    random_coeff_powers@,
                    trace_coset,
                    accum.elements(),
                    r.elements(),
                ),
    {
        self.quotients_on_domain(trace, mode, random_coeff_powers, accum, true)
    }
}

} // verus!
