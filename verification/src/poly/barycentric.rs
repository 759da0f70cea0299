//! Evaluation of a polynomial from its values on a domain, by barycentric weights.

use vstd::arithmetic::power2::pow2;
use vstd::prelude::*;

use super::circle_poly::CircleEvaluation;
use super::domain::{canonic_domain, CanonicCoset};
use super::eval::{dot_s, scaled_terms};
use super::extension::SIMD_DISPATCH_LOG_SIZE;
use super::fold::sum_s;
use crate::circle::{coset_s, subgroup_step, CirclePoint};
use crate::constraints::{
    coset_vanishing, coset_vanishing_derivative, coset_vanishing_s, double_derivative, embed_point,
    no_pole, point_vanishing, point_vanishing_s,
};
use crate::fields::m31::M31;
use crate::fields::qm31::{embed, QM31};
use crate::fields::{inv_of, lemma_inv_of, Field};
use crate::parallel::par_map;
use crate::utils::{bit_reverse_index, lemma_pow2_bound};

verus! {

/// Whether weights of this size are computed by the wide kernels.
pub fn barycentric_weights_use_simd(log_size: u32) -> (r: bool)
    ensures
        r == (log_size >= SIMD_DISPATCH_LOG_SIZE),
{
    log_size >= SIMD_DISPATCH_LOG_SIZE
}

/// Minus two.
pub open spec fn minus_two() -> QM31 {
    embed(M31(2147483645))
}

/// The part of the weight at a domain point that does not depend on where the polynomial is
/// evaluated: `-2 y` times the derivative of the vanishing polynomial of the domain.
pub open spec fn weight_scale(q: CirclePoint<QM31>, log_size: nat) -> QM31 {
    q.y.times(minus_two()).times(double_derivative(q.x, (log_size - 1) as nat))
}

/// The denominator of the weight at the domain point `q`.
pub open spec fn weight_denominator(
    q: CirclePoint<QM31>,
    log_size: nat,
    p: CirclePoint<QM31>,
) -> QM31 {
    weight_scale(q, log_size).times(point_vanishing_s(q, p))
}

/// The vanishing polynomial of the canonical coset.
pub open spec fn canonic_vanishing(log_size: nat, p: CirclePoint<QM31>) -> QM31 {
    coset_vanishing_s(coset_s(subgroup_step(log_size + 1) as int, log_size), p)
}

/// The weight at place `j`.
pub open spec fn weight_s(log_size: nat, p: CirclePoint<QM31>, j: int) -> QM31 {
    let q = embed_point(canonic_domain(log_size).reversed_at(j));
    canonic_vanishing(log_size, p).times(inv_of(weight_denominator(q, log_size, p)))
}

/// Whether the weights at `p` exist: no denominator is zero.
pub open spec fn weights_exist(log_size: nat, p: CirclePoint<QM31>) -> bool {
    forall|j: int|
        #![trigger canonic_domain(log_size).reversed_at(j)]
        0 <= j < pow2(log_size) ==> {
            let q = embed_point(canonic_domain(log_size).reversed_at(j));
            no_pole(q, p) && weight_denominator(q, log_size, p) != QM31::zero_el()
        }
}

/// The weights at `p`.
pub open spec fn weights_s(log_size: nat, p: CirclePoint<QM31>) -> Seq<QM31> {
    Seq::new(pow2(log_size), |j: int| weight_s(log_size, p, j))
}

/// The barycentric weights of the canonical domain at a point, in bit-reversed order.
pub fn barycentric_weights_scalar(coset: CanonicCoset, p: CirclePoint<QM31>) -> (r: Vec<QM31>)
    requires
        coset.wf(),
        weights_exist(coset.coset.log_size as nat, p),
    ensures
        r@ == weights_s(coset.coset.log_size as nat, p),
{
    let domain = coset.circle_domain();
    let log_size: u32 = domain.log_size();
    let n: usize = domain.size();
    let vn = coset_vanishing(CanonicCoset::new(log_size).coset, p);
    let ghost lg = log_size as nat;
    proof {
        lemma_pow2_bound(lg);
    }
    let mut r: Vec<QM31> = Vec::with_capacity(n);
    for i in 0..n
        invariant
            1 <= log_size <= 30,
            lg == log_size,
            n == pow2(lg),
            domain == canonic_domain(lg),
            domain.wf(),
            domain.log_size_s() == lg,
            weights_exist(lg, p),
            vn == canonic_vanishing(lg, p),
            r@ == weights_s(lg, p).take(i as int),
    {
        let q = domain.at(bit_reverse_index(i, log_size)).into_ef();
        assert(q == embed_point(canonic_domain(lg).reversed_at(i as int)));
        let minus_two_y = q.y.mul(QM31::from_base(M31(2147483645)));
        let si = minus_two_y.mul(coset_vanishing_derivative(log_size, q));
        let vi = point_vanishing(q, p);
        let d = si.mul(vi);
        assert(d == weight_denominator(q, lg, p));
        proof {
            QM31::law_canon_results(si, vi);
        }
        let inv = d.inverse();
        proof {
            lemma_inv_of(d, inv);
        }
        r.push(vn.mul(inv));
        assert(r@ =~= weights_s(lg, p).take(i + 1));
    }
    assert(r@ =~= weights_s(lg, p));
    r
}

/// The barycentric weights of the canonical domain at a point.
pub fn barycentric_weights(coset: CanonicCoset, p: CirclePoint<QM31>) -> (r: Vec<QM31>)
    requires
        coset.wf(),
        weights_exist(coset.coset.log_size as nat, p),
    ensures
        r@ == weights_s(coset.coset.log_size as nat, p),
{
    barycentric_weights_scalar(coset, p)
}

/// The weighted sum of the values of a column.
pub fn barycentric_eval_at_point(evals: &CircleEvaluation, weights: &Vec<QM31>) -> (r: QM31)
    requires
        evals.wf(),
        weights.len() == evals.values.len(),
    ensures
        r == dot_s(evals.values@, weights@),
{
    let mut acc = QM31::zero();
    let n: usize = evals.values.len();
    let ghost terms = scaled_terms(evals.values@, weights@);
    assert(terms.take(0).len() == 0);
    for i in 0..n
        invariant
            n == evals.values.len(),
            n == weights.len(),
            terms == scaled_terms(evals.values@, weights@),
            acc == sum_s(terms.take(i as int)),
    {
        acc = acc.add(weights[i].mul_m31(evals.values[i]));
        assert(terms.take(i + 1).drop_last() =~= terms.take(i as int));
    }
    assert(terms.take(n as int) =~= terms);
    acc
}

/// The weighted sums of many columns over one domain.
pub fn barycentric_eval_many_at_point(evals: &Vec<&CircleEvaluation>, weights: &Vec<QM31>) -> (r:
    Vec<QM31>)
    requires
        forall|k: int|
            0 <= k < evals.len() ==> (#[trigger] evals@[k]).wf() && evals@[k].values.len()
                == weights.len(),
    ensures
        r.len() == evals.len(),
        forall|k: int|
            0 <= k < evals.len() ==> #[trigger] r@[k] == dot_s(evals@[k].values@, weights@),
{
    let eval_one = |i: usize| -> (r: QM31)
        requires
            i < evals@.len(),
            evals@[i as int].wf(),
            evals@[i as int].values.len() == weights.len(),
        ensures
            r == dot_s(evals@[i as int].values@, weights@),
        { barycentric_eval_at_point(evals[i], weights) };
    let r = par_map(evals.len(), eval_one);
    proof {
        assert forall|k: int| 0 <= k < evals.len() implies #[trigger] r@[k] == dot_s(
            evals@[k].values@,
            weights@,
        ) by {
            assert(call_ensures(eval_one, (k as usize,), r@[(k as usize) as int]));
        }
    }
    r
}

/// Columns over one domain, to be evaluated at one point.
pub struct BarycentricEvalGroup<'a> {
    pub coset: CanonicCoset,
    pub point: CirclePoint<QM31>,
    pub evals: Vec<&'a CircleEvaluation>,
}

/// The scalar path evaluates no group by itself: every group is left to the caller.
pub fn barycentric_eval_many_groups(groups: &Vec<BarycentricEvalGroup>) -> (r: Vec<
    Option<Vec<QM31>>,
>)
    ensures
        r.len() == groups.len(),
        forall|k: int| 0 <= k < r.len() ==> #[trigger] r@[k] is None,
{
    let mut r: Vec<Option<Vec<QM31>>> = Vec::new();
    let n: usize = groups.len();
    for i in 0..n
        invariant
            r.len() == i,
            forall|k: int| 0 <= k < i ==> #[trigger] r@[k] is None,
    {
        r.push(None);
    }
    r
}

} // verus!
