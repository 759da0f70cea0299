//! Inner products of columns with shared weights, summed lane by lane as a threadgroup does.

use vstd::arithmetic::power2::pow2;
use vstd::prelude::*;

use crate::circle::norm_of;
use crate::decompose::lemma_sum_one;
use crate::fields::m31::M31;
use crate::fields::qm31::QM31;
use crate::fields::{lemma_add_swap_middle, Field};
use crate::metal::ood::{
    barycentric_weights_metal, group_admitted, plan_group, should_batch_barycentric_on_metal,
    MIN_METAL_BARYCENTRIC_COLUMNS, MIN_METAL_BARYCENTRIC_WORK, MIN_METAL_OOD_LOG_SIZE,
};
use crate::poly::barycentric::{weights_s, BarycentricEvalGroup};
use crate::poly::circle_poly::{CircleCoefficients, CircleEvaluation};
use crate::poly::eval::{dot_s, scaled_terms};
use crate::poly::fold::{lemma_sum_canonical, lemma_sum_concat, sum_s};
use crate::utils::pow2_usize;

verus! {

/// The lanes of a threadgroup.
pub const DOT_LANES: usize = 256;

/// Adding to one element adds to the sum.
proof fn lemma_sum_update<F: Field>(v: Seq<F>, k: int, x: F)
    requires
        0 <= k < v.len(),
    ensures
        sum_s(v.update(k, v[k].plus(x))) == sum_s(v).plus(x),
    decreases v.len(),
{
    let w = v.update(k, v[k].plus(x));
    let rest = sum_s(v.drop_last());
    if k == v.len() - 1 {
        assert(w.drop_last() =~= v.drop_last());
        F::law_add_assoc(rest, v.last(), x);
    } else {
        assert(w.drop_last() =~= v.drop_last().update(k, v.drop_last()[k].plus(x)));
        lemma_sum_update(v.drop_last(), k, x);
        F::law_add_assoc(rest, x, v.last());
        F::law_add_comm(x, v.last());
        F::law_add_assoc(rest, v.last(), x);
    }
}

/// The sums of the elements half the length apart.
pub open spec fn halved<F: Field>(v: Seq<F>) -> Seq<F> {
    Seq::new(v.len() / 2, |i: int| v[i].plus(v[i + v.len() / 2]))
}

/// The sum of pairwise sums is the sum of the two sums.
proof fn lemma_sum_pointwise<F: Field>(a: Seq<F>, b: Seq<F>)
    requires
        a.len() == b.len(),
    ensures
        sum_s(Seq::new(a.len(), |i: int| a[i].plus(b[i]))) == sum_s(a).plus(sum_s(b)),
    decreases a.len(),
{
    let c = Seq::new(a.len(), |i: int| a[i].plus(b[i]));
    if a.len() == 0 {
        F::law_add_zero(F::zero_el());
        F::law_canon_results(F::zero_el(), F::zero_el());
    } else {
        let a1 = a.drop_last();
        let b1 = b.drop_last();
        assert(c.drop_last() =~= Seq::new(a1.len(), |i: int| a1[i].plus(b1[i])));
        lemma_sum_pointwise(a1, b1);
        lemma_add_swap_middle(sum_s(a1), sum_s(b1), a.last(), b.last());
    }
}

/// Halving an even number of elements keeps the sum.
proof fn lemma_sum_halved<F: Field>(v: Seq<F>)
    requires
        v.len() % 2 == 0,
    ensures
        sum_s(halved(v)) == sum_s(v),
{
    let h = (v.len() / 2) as int;
    let a = v.take(h);
    let b = v.skip(h);
    assert(halved(v) =~= Seq::new(a.len(), |i: int| a[i].plus(b[i])));
    lemma_sum_pointwise(a, b);
    lemma_sum_concat(a, b);
    assert(a + b =~= v);
}

/// The inner product of a column with the weights: every lane sums its own rows, and the lanes
/// are summed by halving.
fn lane_dot(column: &Vec<M31>, weights: &Vec<QM31>) -> (r: QM31)
    requires
        column.len() == weights.len(),
    ensures
        r == dot_s(column@, weights@),
{
    let n: usize = column.len();
    let ghost terms = scaled_terms(column@, weights@);
    let mut lanes: Vec<QM31> = Vec::with_capacity(DOT_LANES);
    assert(terms.take(0).len() == 0);
    for l in 0..DOT_LANES
        invariant
            lanes.len() == l,
            sum_s(lanes@) == QM31::zero_el(),
    {
        let ghost before = lanes@;
        lanes.push(QM31::zero());
        proof {
            assert(lanes@.drop_last() =~= before);
            QM31::law_add_zero(QM31::zero_el());
            QM31::law_canon_results(QM31::zero_el(), QM31::zero_el());
        }
    }
    for i in 0..n
        invariant
            n == column.len(),
            n == weights.len(),
            terms == scaled_terms(column@, weights@),
            lanes.len() == DOT_LANES,
            sum_s(lanes@) == sum_s(terms.take(i as int)),
    {
        let l: usize = i % DOT_LANES;
        let ghost before = lanes@;
        let term = weights[i].mul_m31(column[i]);
        lanes[l] = lanes[l].add(term);
        proof {
            assert(lanes@ =~= before.update(l as int, before[l as int].plus(term)));
            lemma_sum_update(before, l as int, term);
            assert(terms.take(i + 1).drop_last() =~= terms.take(i as int));
            assert(terms.take(i + 1).last() == term);
        }
    }
    let ghost total = sum_s(terms);
    assert(terms.take(n as int) =~= terms);
    let mut active: usize = DOT_LANES;
    let mut rounds: usize = 8;
    assert(lanes@.take(DOT_LANES as int) =~= lanes@);
    assert(pow2(8) == 256) by {
        vstd::arithmetic::power2::lemma2_to64();
    }
    while active > 1
        invariant
            lanes.len() == DOT_LANES,
            1 <= active <= DOT_LANES,
            rounds <= 8,
            active == pow2(rounds as nat),
            sum_s(lanes@.take(active as int)) == total,
        decreases active,
    {
        proof {
            vstd::arithmetic::power2::lemma2_to64();
            if rounds > 0 {
                vstd::arithmetic::power2::lemma_pow2_unfold(rounds as nat);
            }
        }
        let stride: usize = active / 2;
        let ghost before = lanes@;
        for l in 0..stride
            invariant
                lanes.len() == DOT_LANES,
                before.len() == DOT_LANES,
                2 * stride <= DOT_LANES,
                forall|k: int|
                    0 <= k < l ==> #[trigger] lanes@[k] == before[k].plus(before[k + stride]),
                forall|k: int| l <= k < DOT_LANES ==> #[trigger] lanes@[k] == before[k],
        {
            lanes[l] = lanes[l].add(lanes[l + stride]);
        }
        proof {
            let old_lanes = before.take(active as int);
            lemma_sum_halved(old_lanes);
            assert(lanes@.take(stride as int) =~= halved(old_lanes));
        }
        active = stride;
        rounds = rounds - 1;
    }
    proof {
        lemma_sum_one(lanes@.take(1));
        lemma_sum_canonical(terms);
    }
    let sum = lanes[0].add(QM31::zero());
    proof {
        QM31::law_add_zero(lanes@[0]);
    }
    sum
}

/// The inner products of many columns with shared weights. Too few rows, and no columns at all,
/// are declined.
pub fn eval_m31_columns_metal(columns: &Vec<&Vec<M31>>, weights: &Vec<QM31>) -> (r: Option<
    Vec<QM31>,
>)
    requires
        forall|k: int| 0 <= k < columns.len() ==> (#[trigger] columns@[k]).len() == weights.len(),
    ensures
        r is Some <==> weights.len() >= pow2(MIN_METAL_OOD_LOG_SIZE as nat) && columns.len() > 0,
        r is Some ==> r->0.len() == columns.len(),
        r is Some ==> forall|k: int|
            0 <= k < columns.len() ==> #[trigger] r->0@[k] == dot_s(columns@[k]@, weights@),
{
    let count: usize = columns.len();
    if weights.len() < pow2_usize(MIN_METAL_OOD_LOG_SIZE) || count == 0 {
        return None;
    }
    let mut r: Vec<QM31> = Vec::with_capacity(count);
    for k in 0..count
        invariant
            count == columns.len(),
            forall|k: int|
                0 <= k < columns.len() ==> (#[trigger] columns@[k]).len() == weights.len(),
            r.len() == k,
            forall|i: int| 0 <= i < k ==> #[trigger] r@[i] == dot_s(columns@[i]@, weights@),
    {
        assert(columns@[k as int].len() == weights.len());
        r.push(lane_dot(columns[k], weights));
    }
    Some(r)
}

/// The values of many polynomials at the point of a basis.
pub fn eval_many_metal(polys: &Vec<&CircleCoefficients>, basis: &Vec<QM31>) -> (r: Option<
    Vec<QM31>,
>)
    requires
        forall|k: int|
            0 <= k < polys.len() ==> (#[trigger] polys@[k]).coeffs.len() == basis.len(),
    ensures
        r is Some <==> basis.len() >= pow2(MIN_METAL_OOD_LOG_SIZE as nat) && polys.len() > 0,
        r is Some ==> r->0.len() == polys.len(),
        r is Some ==> forall|k: int|
            0 <= k < polys.len() ==> #[trigger] r->0@[k] == dot_s(polys@[k].coeffs@, basis@),
{
    let n: usize = polys.len();
    let mut columns: Vec<&Vec<M31>> = Vec::with_capacity(n);
    for k in 0..n
        invariant
            n == polys.len(),
            forall|i: int|
                0 <= i < polys.len() ==> (#[trigger] polys@[i]).coeffs.len() == basis.len(),
            columns.len() == k,
            forall|i: int|
                0 <= i < k ==> (#[trigger] columns@[i])@ == polys@[i].coeffs@ && columns@[i].len()
                    == basis.len(),
    {
        assert(polys@[k as int].coeffs.len() == basis.len());
        columns.push(&polys[k].coeffs);
    }
    eval_m31_columns_metal(&columns, basis)
}

/// The columns of values of many evaluations.
fn value_columns<'a>(evals: &Vec<&'a CircleEvaluation>) -> (r: Vec<&'a Vec<M31>>)
    ensures
        r.len() == evals.len(),
        forall|i: int| 0 <= i < r.len() ==> *(#[trigger] r@[i]) == evals@[i].values,
{
    let n: usize = evals.len();
    let mut columns: Vec<&'a Vec<M31>> = Vec::with_capacity(n);
    for k in 0..n
        invariant
            n == evals.len(),
            columns.len() == k,
            forall|i: int| 0 <= i < k ==> *(#[trigger] columns@[i]) == evals@[i].values,
    {
        let evaluation: &'a CircleEvaluation = evals[k];
        columns.push(&evaluation.values);
    }
    columns
}

/// The weighted sums of many columns over one domain. Batches too small to be worth a submission
/// are declined.
pub fn barycentric_eval_many_metal(evals: &Vec<&CircleEvaluation>, weights: &Vec<QM31>) -> (r:
    Option<Vec<QM31>>)
    requires
        forall|k: int|
            0 <= k < evals.len() ==> (#[trigger] evals@[k]).values.len() == weights.len(),
    ensures
        r is Some <==> evals.len() >= MIN_METAL_BARYCENTRIC_COLUMNS && weights.len() * evals.len()
            >= MIN_METAL_BARYCENTRIC_WORK && weights.len() >= pow2(MIN_METAL_OOD_LOG_SIZE as nat),
        r is Some ==> r->0.len() == evals.len(),
        r is Some ==> forall|k: int|
            0 <= k < evals.len() ==> #[trigger] r->0@[k] == dot_s(evals@[k].values@, weights@),
{
    if !should_batch_barycentric_on_metal(weights.len(), evals.len()) {
        return None;
    }
    let columns = value_columns(evals);
    assert forall|k: int| 0 <= k < columns.len() implies (#[trigger] columns@[k]).len()
        == weights.len() by {
        assert(evals@[k].values.len() == weights.len());
    }
    eval_m31_columns_metal(&columns, weights)
}

/// The values that an admitted group of columns has at its point.
pub open spec fn group_values(g: BarycentricEvalGroup) -> Seq<QM31> {
    let weights = weights_s(g.coset.coset.log_size as nat, g.point);
    Seq::new(g.evals.len() as nat, |k: int| dot_s(g.evals@[k].values@, weights))
}

/// Every admitted group with its values, in the places of the groups. The others are left to the
/// caller.
pub fn barycentric_eval_groups_metal(groups: &Vec<BarycentricEvalGroup>) -> (r: Vec<
    Option<Vec<QM31>>,
>)
    requires
        forall|k: int|
            0 <= k < groups.len() ==> (#[trigger] groups@[k]).coset.wf() && norm_of(
                groups@[k].point,
            ) == QM31::one_el(),
    ensures
        r.len() == groups.len(),
        forall|k: int|
            0 <= k < r.len() ==> ((#[trigger] r@[k]) is Some <==> group_admitted(groups@[k])),
        forall|k: int|
            0 <= k < r.len() && (#[trigger] r@[k]) is Some ==> r@[k]->0@ == group_values(groups@[k]),
{
    let n: usize = groups.len();
    let mut r: Vec<Option<Vec<QM31>>> = Vec::with_capacity(n);
    for k in 0..n
        invariant
            n == groups.len(),
            forall|k: int|
                0 <= k < groups.len() ==> (#[trigger] groups@[k]).coset.wf() && norm_of(
                    groups@[k].point,
                ) == QM31::one_el(),
            r.len() == k,
            forall|i: int|
                0 <= i < r.len() ==> ((#[trigger] r@[i]) is Some <==> group_admitted(groups@[i])),
            forall|i: int|
                0 <= i < r.len() && (#[trigger] r@[i]) is Some ==> r@[i]->0@ == group_values(
                    groups@[i],
                ),
    {
        let group = &groups[k];
        assert(groups@[k as int].coset.wf());
        let value = match plan_group(group, k) {
            Some(_) => match barycentric_weights_metal(group.coset, group.point) {
                Some(weights) => {
                    let columns = value_columns(&group.evals);
                    assert forall|i: int| 0 <= i < columns.len() implies (
                    #[trigger] columns@[i]).len() == weights.len() by {
                        assert(group.evals@[i].values.len() == weights.len());
                    }
                    let values = eval_m31_columns_metal(&columns, &weights);
                    assert(values is Some) by {
                        crate::utils::lemma_pow2_le(
                            MIN_METAL_OOD_LOG_SIZE as nat,
                            group.coset.coset.log_size as nat,
                        );
                    }
                    assert(values->0@ =~= group_values(*group));
                    values
                },
                None => None,
            },
            None => None,
        };
        r.push(value);
    }
    r
}

} // verus!
