//! The evaluators agree: what is captured as expressions is what is computed row by row.

use vstd::prelude::*;

use super::domain::{lookup_constraint, range_sum, weighted_sum};
use super::evaluator::{
    batch_count, batch_sum, is_alpha, is_combination, is_formal_shift, is_weighted, secure_mask, smaller,
    FormalLogupAtRow, Fraction,
};
use super::expr::{BaseExpr, ExtExpr, Values};
use super::finalize::lemma_batches;
use super::logup::{next_column, packed_at};
use super::names::decimal_s;
use super::packed::PackedQM31;
use super::relation::{weighted, LookupElements, Relation};
use crate::fields::m31::M31;
use crate::fields::qm31::{embed, QM31};
use crate::fields::{inv_of, lemma_inv_exists, Field};
use crate::fri::lemma_embed;
use crate::poly::eval::lemma_scaled_is_times;
use crate::poly::fold::sum_s;

verus! {

// ---------------------------------------------------------------------------------------------
// Lookups.

/// `f` holds what a formal fraction is worth.
pub open spec fn is_worth(
    f: Fraction<QM31, QM31>,
    formal: Fraction<ExtExpr, ExtExpr>,
    v: Values,
) -> bool {
    f.numerator == formal.numerator.value_s(v) && f.denominator == formal.denominator.value_s(v)
}

proof fn lemma_sum_worth(
    fracs: Seq<Fraction<QM31, QM31>>,
    formal: Seq<Fraction<ExtExpr, ExtExpr>>,
    v: Values,
    from: int,
    to: int,
)
    requires
        0 <= from < to <= fracs.len(),
        fracs.len() == formal.len(),
        forall|k: int| 0 <= k < fracs.len() ==> is_worth(#[trigger] fracs[k], formal[k], v),
    ensures
        is_worth(range_sum(fracs, from, to), batch_sum(formal, from, to), v),
    decreases to - from,
{
    if to > from + 1 {
        lemma_sum_worth(fracs, formal, v, from, to - 1);
        assert(is_worth(fracs[to - 1], formal[to - 1], v));
        reveal_with_fuel(ExtExpr::value_s, 3);
    } else {
        assert(is_worth(fracs[from], formal[from], v));
    }
}

/// A lookup constraint computed at a row is what the captured one is worth there: with the
/// fractions, the lookup columns and the shift worth what the row holds of them.
pub proof fn lemma_lookup_is_captured(
    logup: FormalLogupAtRow,
    first: int,
    i: int,
    size: nat,
    v: Values,
    fracs: Seq<Fraction<QM31, QM31>>,
    column: spec_fn(int, int) -> QM31,
    shift: QM31,
)
    requires
        size > 0,
        0 <= i < batch_count(logup.fracs@.len(), size),
        fracs.len() == logup.fracs@.len(),
        forall|k: int| 0 <= k < fracs.len() ==> is_worth(#[trigger] fracs[k], logup.fracs@[k], v),
        forall|j: int| #[trigger]
            column(j, 0) == secure_mask(logup.interaction, first + 4 * j, 0).value_s(v),
        forall|j: int| #[trigger]
            column(j, -1) == secure_mask(
                logup.interaction,
                first + 4 * j,
                (-1) as isize,
            ).value_s(v),
        shift == logup.cumsum_shift.value_s(v),
    ensures
        lookup_constraint(fracs, column, shift, i, size) == logup.batch_constraint(
            first,
            i,
            size,
        ).value_s(v),
{
    let n = fracs.len();
    lemma_batches(n, size, i);
    lemma_sum_worth(fracs, logup.fracs@, v, i * size, smaller((i + 1) * size, n as int));
    let c = logup.batch_constraint(first, i, size);
    let sum = logup.batch(i, size);
    let product = *c->Sub_0;
    let step = *product->Mul_0;
    assert(c.value_s(v) == product.value_s(v).minus(sum.numerator.value_s(v)));
    assert(product.value_s(v) == step.value_s(v).times(sum.denominator.value_s(v)));
    let zero = ExtExpr::Const(QM31::zero_el());
    assert(zero.value_s(v) == QM31::zero_el());
    if i + 1 < batch_count(n, size) {
        assert(step.value_s(v) == (*step->Sub_0).value_s(v).minus((*step->Sub_1).value_s(v)));
    } else {
        let inner = *step->Add_0;
        let rows = *inner->Sub_0;
        assert(step.value_s(v) == inner.value_s(v).plus(shift));
        assert(inner.value_s(v) == rows.value_s(v).minus((*inner->Sub_1).value_s(v)));
        assert(rows.value_s(v) == (*rows->Sub_0).value_s(v).minus((*rows->Sub_1).value_s(v)));
    }
}

/// The captured shift, times the number of rows, is the claimed sum.
pub proof fn lemma_shift_spreads_claimed_sum(e: ExtExpr, v: Values)
    requires
        is_formal_shift(e),
        (v.params)("column_size"@).canon() != M31::zero_el(),
    ensures
        e.value_s(v).scaled((v.params)("column_size"@)) == (v.ext_params)("claimed_sum"@).canon(),
{
    let (sum, size) = ((v.ext_params)("claimed_sum"@), (v.params)("column_size"@));
    let (a, b) = (*e->Mul_0, *e->Mul_1);
    let x = *b->SecureCol_0;
    let i = inv_of(size);
    reveal_with_fuel(ExtExpr::value_s, 2);
    reveal_with_fuel(BaseExpr::value_s, 3);
    assert(x.value_s(v) == i);
    assert(a.value_s(v) == sum);
    assert(b.value_s(v) == embed(i));
    assert(e.value_s(v) == sum.times(embed(i)));
    lemma_inv_exists(size);
    lemma_scaled_is_times(e.value_s(v), size);
    QM31::law_mul_assoc(sum, embed(i), embed(size));
    lemma_embed(i, size);
    M31::law_mul_comm(i, size);
    QM31::law_mul_one(sum);
}

/// A lookup column holds, in every row, what the column before it holds there and the fraction of
/// the row: the difference times the denominator is the numerator.
pub proof fn lemma_next_column(
    numerators: Seq<PackedQM31>,
    denominators: Seq<PackedQM31>,
    before: Seq<QM31>,
    row: int,
)
    requires
        0 <= row < 16 * numerators.len(),
        packed_at(denominators, row).canon() != QM31::zero_el(),
    ensures
        next_column(numerators, denominators, Some(before))[row].minus(before[row]).times(
            packed_at(denominators, row),
        ) == packed_at(numerators, row).canon(),
        next_column(numerators, denominators, None)[row].times(packed_at(denominators, row))
            == packed_at(numerators, row).canon(),
{
    let (n, d, b) = (packed_at(numerators, row), packed_at(denominators, row), before[row]);
    let i = crate::fields::inv_of(d);
    let q = n.times(i);
    lemma_inv_exists(d);
    QM31::law_canon_results(n, i);
    // (q + b) - b = q
    QM31::law_sub(q.plus(b), b);
    QM31::law_add_assoc(q, b, b.opposite());
    QM31::law_add_opposite(b);
    QM31::law_add_zero(q);
    QM31::law_mul_assoc(n, i, d);
    QM31::law_mul_comm(i, d);
    QM31::law_mul_one(n);
}

// ---------------------------------------------------------------------------------------------
// Weights.

/// The weighted sum of constraints is the result before, and each constraint times its own power,
/// added up.
pub proof fn lemma_weighted_sum_adds_up(
    result: QM31,
    powers: spec_fn(int) -> QM31,
    start: int,
    values: spec_fn(int) -> QM31,
    n: nat,
)
    requires
        result.canon() == result,
    ensures
        weighted_sum(result, powers, start, values, n) == result.plus(
            sum_s(Seq::new(n, |i: int| powers(start + i).times(values(i)))),
        ),
    decreases n,
{
    let terms = Seq::new(n, |i: int| powers(start + i).times(values(i)));
    if n == 0 {
        QM31::law_add_zero(result);
    } else {
        let m = (n - 1) as nat;
        lemma_weighted_sum_adds_up(result, powers, start, values, m);
        assert(terms.drop_last() =~= Seq::new(m, |i: int| powers(start + i).times(values(i))));
        QM31::law_add_assoc(result, sum_s(terms.drop_last()), terms.last());
    }
}

// ---------------------------------------------------------------------------------------------
// Relations.

/// The values give the names of a relation its elements.
pub open spec fn assigns(v: Values, relation: Seq<char>, elements: LookupElements) -> bool {
    &&& (v.ext_params)(relation + "_z"@) == elements.z
    &&& forall|i: int|
        0 <= i < elements.alpha_powers@.len() ==> (v.ext_params)(
            relation + "_alpha"@ + decimal_s(i as nat),
        ) == #[trigger] elements.alpha_powers@[i]
}

proof fn lemma_weighted_worth(
    e: ExtExpr,
    relation: Seq<char>,
    values: Seq<BaseExpr>,
    n: nat,
    elements: LookupElements,
    v: Values,
)
    requires
        is_weighted(e, relation, values, n),
        n <= values.len() <= elements.alpha_powers@.len(),
        assigns(v, relation, elements),
    ensures
        e.value_s(v) == weighted(
            elements.alpha_powers@,
            values.map_values(|x: BaseExpr| x.value_s(v)),
            n,
        ),
    decreases n,
{
    if n > 0 {
        let a = *(e->Add_0);
        let b = *(e->Add_1);
        lemma_weighted_worth(a, relation, values, (n - 1) as nat, elements, v);
        let p = *(b->Mul_0);
        let x = *(b->Mul_1);
        assert(is_alpha(p, relation, n - 1));
        assert(e.value_s(v) == a.value_s(v).plus(b.value_s(v)));
        assert(b.value_s(v) == p.value_s(v).times(x.value_s(v)));
        assert(p.value_s(v) == elements.alpha_powers@[n - 1]);
        let y = values[n - 1].value_s(v);
        assert(x == ExtExpr::from_base_s(values[n - 1]));
        assert(BaseExpr::Const(M31(0)).value_s(v) == M31(0));
        assert(x.value_s(v) == embed(y));
        lemma_scaled_is_times(elements.alpha_powers@[n - 1], y);
    }
}

/// A captured combination of values is worth what the relation combines the values to.
pub proof fn lemma_combination_is_captured(
    e: ExtExpr,
    relation: Seq<char>,
    values: Seq<BaseExpr>,
    elements: LookupElements,
    v: Values,
)
    requires
        is_combination(e, relation, values),
        values.len() <= elements.alpha_powers@.len(),
        assigns(v, relation, elements),
    ensures
        e.value_s(v) == elements.combine_s(values.map_values(|x: BaseExpr| x.value_s(v))),
{
    let a = *(e->Sub_0);
    let b = *(e->Sub_1);
    lemma_weighted_worth(a, relation, values, values.len(), elements, v);
    assert(e.value_s(v) == a.value_s(v).minus(b.value_s(v)));
}

} // verus!
