//! What a component adds to a composition: its constraints combined by one coefficient, divided by
//! what vanishes on the trace, on the first rows of the committed domain.

use vstd::arithmetic::power2::pow2;
use vstd::prelude::*;

use super::component::{FormalEval, FrameworkEval};
use super::domain::weighted_sum;
use super::quotient::{EvaluationMode, FrameworkComponent};
use super::vanishing::{base_vanishing, eval_domain_s};
use super::vanishing_laws::lemma_quotient_times_vanishing;
use crate::fields::qm31::QM31;
use crate::fields::{lemma_mul_zero, Field};
use crate::poly::circle_poly::CircleEvaluation;
use crate::poly::domain::{canonic_domain, CanonicCoset};
use crate::quotient_laws::lemma_subdomain_rows;
use crate::quotients::quotient_subdomain;

verus! {

/// `1, alpha, alpha^2, ...`
pub open spec fn is_geometric(powers: Seq<QM31>, alpha: QM31) -> bool {
    &&& powers.len() > 0 ==> powers[0] == QM31::one_el()
    &&& forall|i: int| 1 <= i < powers.len() ==> #[trigger] powers[i] == powers[i - 1].times(alpha)
}

/// Values gathered one after the other: what was gathered times `alpha`, and the next value.
pub open spec fn gathered(values: spec_fn(int) -> QM31, alpha: QM31, n: nat) -> QM31
    decreases n,
{
    if n == 0 {
        QM31::zero_el()
    } else {
        gathered(values, alpha, (n - 1) as nat).times(alpha).plus(values(n - 1))
    }
}

proof fn lemma_gathered_part(
    powers: Seq<QM31>,
    alpha: QM31,
    weights: spec_fn(int) -> QM31,
    values: spec_fn(int) -> QM31,
    k: nat,
)
    requires
        is_geometric(powers, alpha),
        1 <= k <= powers.len(),
        forall|i: int| 0 <= i < powers.len() ==> #[trigger] weights(i) == powers.reverse()[i],
    ensures
        weighted_sum(QM31::zero_el(), weights, 0, values, k) == gathered(values, alpha, k).times(
            powers[powers.len() - k],
        ),
    decreases k,
{
    let n = powers.len() as int;
    let j = (k - 1) as nat;
    let (w, h) = (weighted_sum(QM31::zero_el(), weights, 0, values, j), gathered(values, alpha, j));
    let (p, v) = (powers[n - k], values(k - 1));
    assert(weights(k - 1) == p);
    assert(weights(0 + k - 1) == p);
    QM31::law_mul_comm(h.times(alpha).plus(v), p);
    QM31::law_distrib(p, h.times(alpha), v);
    QM31::law_mul_comm(p, h.times(alpha));
    QM31::law_mul_assoc(h, alpha, p);
    QM31::law_mul_comm(alpha, p);
    if j > 0 {
        lemma_gathered_part(powers, alpha, weights, values, j);
        assert(powers[n - j] == p.times(alpha));
    } else {
        let q = p.times(alpha);
        lemma_mul_zero(q);
        QM31::law_mul_comm(h, q);
    }
}

/// The constraints of a component come to its constraints gathered one after the other, where the
/// powers of the coefficient are given from the lowest on: the first constraint has the highest.
pub proof fn lemma_component_gathers(
    component: FrameworkComponent<FormalEval>,
    columns: Seq<Vec<&CircleEvaluation>>,
    powers: Seq<QM31>,
    alpha: QM31,
    row: int,
)
    requires
        is_geometric(powers, alpha),
        powers.len() == component.eval.constraints@.len(),
    ensures
        component.eval.row_sum(component.context(columns, powers), row) == gathered(
            component.eval.constraint_values(component.context(columns, powers), row),
            alpha,
            powers.len(),
        ),
{
    let at = component.context(columns, powers);
    let values = component.eval.constraint_values(at, row);
    let weights = |i: int| at.powers[i];
    let n = powers.len();
    assert(component.eval.row_sum(at, row) == weighted_sum(QM31::zero_el(), weights, 0, values, n));
    if n > 0 {
        lemma_gathered_part(powers, alpha, weights, values, n);
        let h = gathered(values, alpha, n);
        QM31::law_mul_one(h);
        QM31::law_canon_results(gathered(values, alpha, (n - 1) as nat).times(alpha), values(n - 1));
    }
}

/// The rows of the domain on which constraints are evaluated are the first rows of the canonic
/// domain that is larger by the expansion.
pub proof fn lemma_eval_domain_rows(log_size: nat, log_expansion: nat, row: int)
    requires
        1 <= log_size,
        log_size + log_expansion <= 30,
        0 <= row < pow2(log_size),
    ensures
        eval_domain_s(log_size, log_expansion).reversed_at(row) == canonic_domain(
            log_size + log_expansion,
        ).reversed_at(row),
{
    let lifting = log_size + log_expansion;
    assert((lifting - log_expansion) as nat == log_size);
    crate::poly::domain::lemma_canonic_domain_wf(lifting);
    assert(eval_domain_s(log_size, log_expansion) == quotient_subdomain(lifting, log_expansion));
    lemma_subdomain_rows(lifting, log_expansion, row);
}

/// What a component adds in a row, times the value at the row's point of the polynomial that
/// vanishes on the trace, is what its constraints come to. The point is the one that the row has
/// in the canonic domain that is larger by the expansion.
pub proof fn lemma_component_quotients<E: FrameworkEval>(
    component: FrameworkComponent<E>,
    columns: Seq<Vec<&CircleEvaluation>>,
    mode: EvaluationMode,
    powers: Seq<QM31>,
    trace: CanonicCoset,
    before: Seq<QM31>,
    after: Seq<QM31>,
    row: int,
)
    requires
        trace.wf(),
        trace.coset.log_size <= component.max_constraint_log_degree_bound,
        trace.coset.log_size < component.max_constraint_log_degree_bound + mode.expansion() <= 30,
        0 <= row < before.len() == pow2(component.max_constraint_log_degree_bound as nat),
        component.adds_quotients(columns, mode, powers, trace, before, after),
    ensures
        after[row].minus(before[row]).scaled(
            base_vanishing(
                trace.coset,
                canonic_domain(
                    component.max_constraint_log_degree_bound as nat + mode.expansion(),
                ).reversed_at(row),
            ),
        ) == component.eval.row_sum(component.context(columns, powers), row).canon(),
{
    let e = component.max_constraint_log_degree_bound as nat;
    lemma_eval_domain_rows(e, mode.expansion(), row);
    lemma_quotient_times_vanishing(
        &component.eval,
        component.context(columns, powers),
        before,
        trace,
        e,
        mode.expansion(),
        row,
    );
}

} // verus!
