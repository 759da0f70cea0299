//! The constraints that tie lookup columns to the fractions of a component.

use vstd::arithmetic::div_mod::{lemma_fundamental_div_mod, lemma_mod_bound};
use vstd::arithmetic::mul::{lemma_mul_is_distributive_add_other_way, lemma_mul_inequality};
use vstd::prelude::*;

use crate::fields::qm31::QM31;
use crate::fields::{
    inv_of, lemma_inv_exists, lemma_inv_of, lemma_mul_swap, lemma_opposite_twice,
    lemma_opposite_unique, lemma_product_nonzero, Field,
};
use crate::framework::evaluator::{
    batch_count, batch_sum, secure_mask, smaller, ExprEvaluator, FormalLogupAtRow, Fraction,
};
use crate::framework::expr::{ExtExpr, Values};
use crate::framework::MAX_N_INTERACTIONS;

verus! {

fn duplicate_fraction(f: &Fraction<ExtExpr, ExtExpr>) -> (r: Fraction<ExtExpr, ExtExpr>)
    ensures
        r == *f,
{
    Fraction { numerator: f.numerator.duplicate(), denominator: f.denominator.duplicate() }
}

/// The sum of the fractions `from .. to`.
fn sum_batch(fracs: &Vec<Fraction<ExtExpr, ExtExpr>>, from: usize, to: usize) -> (r: Fraction<
    ExtExpr,
    ExtExpr,
>)
    requires
        from < to <= fracs@.len(),
    ensures
        r == batch_sum(fracs@, from as int, to as int),
{
    let mut sum = duplicate_fraction(&fracs[from]);
    let mut i: usize = from + 1;
    while i < to
        invariant
            from < i <= to <= fracs@.len(),
            sum == batch_sum(fracs@, from as int, i as int),
        decreases to - i,
    {
        let next = &fracs[i];
        let left = next.denominator.duplicate().mul(sum.numerator);
        let right = sum.denominator.duplicate().mul(next.numerator.duplicate());
        sum =
        Fraction {
            numerator: left.add(right),
            denominator: sum.denominator.mul(next.denominator.duplicate()),
        };
        i += 1;
    }
    sum
}

/// Where the batches lie: the `i`-th starts inside the fractions, and all but the last are full.
pub proof fn lemma_batches(n: nat, size: nat, i: int)
    requires
        n > 0,
        size > 0,
        0 <= i < batch_count(n, size),
    ensures
        0 <= i * size < n,
        (i + 1) * size == i * size + size,
        i + 1 < batch_count(n, size) ==> (i + 1) * size < n,
        i + 1 == batch_count(n, size) ==> n <= (i + 1) * size,
{
    let q = (n - 1) / size as int;
    lemma_fundamental_div_mod(n - 1, size as int);
    lemma_mod_bound(n - 1, size as int);
    lemma_mul_is_distributive_add_other_way(size as int, i, 1);
    lemma_mul_inequality(i, q, size as int);
    assert(size as int * q == q * size) by (nonlinear_arith);
    assert(0 <= i * size) by (nonlinear_arith)
        requires
            0 <= i,
            size > 0,
    ;
    if i + 1 <= q {
        lemma_mul_inequality(i + 1, q, size as int);
    }
}

impl ExprEvaluator {
    /// Adds the constraint of every batch of `batch_size` fractions, and starts over with none.
    pub fn finalize_logup_batched(&mut self, batch_size: usize)
        requires
            !old(self).logup.is_finalized,
            batch_size > 0,
            old(self).logup.fracs@.len() > 0,
            old(self).logup.interaction < MAX_N_INTERACTIONS,
            old(self).column_index_per_interaction@[old(self).logup.interaction as int] + 4
                * batch_count(old(self).logup.fracs@.len(), batch_size as nat) <= usize::MAX,
        ensures
            final(self).constraints@ == old(self).constraints@ + Seq::new(
                batch_count(old(self).logup.fracs@.len(), batch_size as nat),
                |i: int|
                    old(self).logup.batch_constraint(
                        old(self).column_index_per_interaction@[old(
                            self).logup.interaction as int] as int,
                        i,
                        batch_size as nat,
                    ),
            ),
            final(self).logup.fracs@.len() == 0,
            final(self).logup.is_finalized,
            final(self).column_index_per_interaction@ == old(
                self).column_index_per_interaction@.update(
                old(self).logup.interaction as int,
                (old(self).column_index_per_interaction@[old(self).logup.interaction as int] + 4
                    * batch_count(old(self).logup.fracs@.len(), batch_size as nat)) as usize,
            ),
            *final(self) == (ExprEvaluator {
                constraints: final(self).constraints,
                logup: (FormalLogupAtRow {
                    fracs: final(self).logup.fracs,
                    is_finalized: true,
                    ..old(self).logup
                }),
                column_index_per_interaction: final(self).column_index_per_interaction,
                ..*old(self)
            }),
    {
        let ghost start = *self;
        let interaction = self.logup.interaction;
        let ghost first = self.column_index_per_interaction@[interaction as int] as int;
        let n = self.logup.fracs.len();
        let n_batches = (n - 1) / batch_size + 1;
        let ghost size = batch_size as nat;
        assert(n_batches == batch_count(n as nat, size));
        let mut previous = ExtExpr::zero();
        let mut i: usize = 0;
        let mut at: usize = 0;
        while i < n_batches
            invariant
                i <= n_batches,
                n_batches == batch_count(n as nat, size),
                n > 0,
                size == batch_size,
                batch_size > 0,
                interaction < MAX_N_INTERACTIONS,
                first == start.column_index_per_interaction@[interaction as int],
                first + 4 * n_batches <= usize::MAX,
                start.logup.fracs@.len() == n,
                start.logup.interaction == interaction,
                i < n_batches ==> at == i * size,
                previous == if i == 0 {
                    ExtExpr::Const(QM31::zero_el())
                } else {
                    secure_mask(interaction, first + 4 * (i - 1), 0)
                },
                self.column_index_per_interaction@
                    == start.column_index_per_interaction@.update(
                    interaction as int,
                    (first + 4 * i) as usize,
                ),
                self.constraints@ == start.constraints@ + Seq::new(
                    i as nat,
                    |i: int| start.logup.batch_constraint(first, i, size),
                ),
                *self == (ExprEvaluator {
                    constraints: self.constraints,
                    column_index_per_interaction: self.column_index_per_interaction,
                    ..start
                }),
            decreases n_batches - i,
        {
            proof {
                lemma_batches(n as nat, size, i as int);
            }
            let to = if n - at <= batch_size {
                n
            } else {
                at + batch_size
            };
            assert(to == smaller((i + 1) * size, n as int));
            let sum = sum_batch(&self.logup.fracs, at, to);
            let step;
            if i + 1 < n_batches {
                let offsets: [isize; 1] = [0];
                let mut mask = self.next_extension_interaction_mask(interaction, &offsets);
                let current = mask.swap_remove(0);
                step = current.duplicate().sub(previous);
                previous = current;
            } else {
                let offsets: [isize; 2] = [-1, 0];
                let mut mask = self.next_extension_interaction_mask(interaction, &offsets);
                let previous_row = mask.swap_remove(0);
                let current = mask.swap_remove(0);
                step =
                current.duplicate().sub(previous_row).sub(previous).add(
                    self.logup.cumsum_shift.duplicate(),
                );
                previous = current;
            }
            let constraint = step.mul(sum.denominator).sub(sum.numerator);
            assert(constraint == start.logup.batch_constraint(first, i as int, size));
            self.add_constraint(constraint);
            assert(self.constraints@ =~= start.constraints@ + Seq::new(
                (i + 1) as nat,
                |i: int| start.logup.batch_constraint(first, i, size),
            ));
            assert(self.column_index_per_interaction@
                =~= start.column_index_per_interaction@.update(
                interaction as int,
                (first + 4 * (i + 1)) as usize,
            ));
            at = to;
            i += 1;
        }
        self.logup.fracs = Vec::new();
        self.logup.is_finalized = true;
    }

    /// One lookup column for each fraction.
    pub fn finalize_logup(&mut self)
        requires
            !old(self).logup.is_finalized,
            old(self).logup.fracs@.len() > 0,
            old(self).logup.interaction < MAX_N_INTERACTIONS,
            old(self).column_index_per_interaction@[old(self).logup.interaction as int] + 4
                * batch_count(old(self).logup.fracs@.len(), 1) <= usize::MAX,
        ensures
            final(self).constraints@ == old(self).constraints@ + Seq::new(
                batch_count(old(self).logup.fracs@.len(), 1),
                |i: int|
                    old(self).logup.batch_constraint(
                        old(self).column_index_per_interaction@[old(
                            self).logup.interaction as int] as int,
                        i,
                        1,
                    ),
            ),
            final(self).logup.fracs@.len() == 0,
            final(self).logup.is_finalized,
            final(self).intermediates == old(self).intermediates,
            final(self).ext_intermediates == old(self).ext_intermediates,
            final(self).ordered == old(self).ordered,
    {
        self.finalize_logup_batched(1)
    }

    /// One lookup column for each pair of fractions.
    pub fn finalize_logup_in_pairs(&mut self)
        requires
            !old(self).logup.is_finalized,
            old(self).logup.fracs@.len() > 0,
            old(self).logup.interaction < MAX_N_INTERACTIONS,
            old(self).column_index_per_interaction@[old(self).logup.interaction as int] + 4
                * batch_count(old(self).logup.fracs@.len(), 2) <= usize::MAX,
        ensures
            final(self).constraints@ == old(self).constraints@ + Seq::new(
                batch_count(old(self).logup.fracs@.len(), 2),
                |i: int|
                    old(self).logup.batch_constraint(
                        old(self).column_index_per_interaction@[old(
                            self).logup.interaction as int] as int,
                        i,
                        2,
                    ),
            ),
            final(self).logup.fracs@.len() == 0,
            final(self).logup.is_finalized,
            final(self).intermediates == old(self).intermediates,
            final(self).ext_intermediates == old(self).ext_intermediates,
            final(self).ordered == old(self).ordered,
    {
        self.finalize_logup_batched(2)
    }
}

/// `(a * b) * (c * d) = (b * c) * (a * d)`.
proof fn lemma_mul_four<F: Field>(a: F, b: F, c: F, d: F)
    ensures
        a.times(b).times(c.times(d)) == b.times(c).times(a.times(d)),
{
    F::law_mul_comm(a, b);
    F::law_mul_assoc(b, a, c.times(d));
    lemma_mul_swap(a, c, d);
    F::law_mul_assoc(b, c, a.times(d));
}

/// The sum of two fractions is the fraction of the sum.
pub proof fn lemma_fraction_sum<F: Field>(n1: F, d1: F, n2: F, d2: F)
    requires
        d1.canon() != F::zero_el(),
        d2.canon() != F::zero_el(),
    ensures
        d1.times(d2).canon() != F::zero_el(),
        d2.times(n1).plus(d1.times(n2)).times(inv_of(d1.times(d2))) == n1.times(inv_of(d1)).plus(
            n2.times(inv_of(d2)),
        ),
{
    let one = F::one_el();
    lemma_product_nonzero(d1, d2);
    lemma_inv_exists(d1);
    lemma_inv_exists(d2);
    let (i1, i2) = (inv_of(d1), inv_of(d2));
    let inv = i1.times(i2);
    // (d1 * d2) * (i1 * i2) = (d2 * i1) * (d1 * i2), so swap first
    F::law_mul_comm(d1, d2);
    lemma_mul_four(d2, d1, i1, i2);
    F::law_mul_one(one);
    F::law_canon_results(i1, i2);
    F::law_canon_results(one, one);
    lemma_inv_of(d1.times(d2), inv);
    crate::fields::lemma_distrib_right(d2.times(n1), d1.times(n2), inv);
    lemma_mul_four(d2, n1, i1, i2);
    F::law_mul_one(n1.times(i1));
    F::law_canon_results(n1, i1);
    F::law_mul_comm(i1, i2);
    lemma_mul_four(d1, n2, i2, i1);
    F::law_mul_one(n2.times(i2));
    F::law_canon_results(n2, i2);
}

/// `x * d - n = 0` makes `x` the quotient.
pub proof fn lemma_quotient<F: Field>(x: F, d: F, n: F)
    requires
        d.canon() != F::zero_el(),
        x.times(d).minus(n) == F::zero_el(),
    ensures
        x.canon() == n.times(inv_of(d)),
{
    let p = x.times(d);
    lemma_inv_exists(d);
    let i = inv_of(d);
    F::law_sub(p, n);
    F::law_add_comm(p, n.opposite());
    lemma_opposite_unique(n.opposite(), p);
    lemma_opposite_twice(n);
    F::law_canon_results(x, d);
    assert(p == n.canon());
    F::law_canon_args(n, i);
    F::law_mul_assoc(x, d, i);
    F::law_mul_one(x);
}

/// `sum_j n_j / d_j` over the fractions `from .. to`.
pub open spec fn range_total(
    fracs: Seq<Fraction<ExtExpr, ExtExpr>>,
    v: Values,
    from: int,
    to: int,
) -> QM31
    decreases to - from,
{
    if to <= from {
        QM31::zero_el()
    } else {
        range_total(fracs, v, from, to - 1).plus(
            fracs[to - 1].numerator.value_s(v).times(inv_of(fracs[to - 1].denominator.value_s(v))),
        )
    }
}

/// No fraction has a pole.
pub open spec fn no_poles(fracs: Seq<Fraction<ExtExpr, ExtExpr>>, v: Values) -> bool {
    forall|j: int|
        0 <= j < fracs.len() ==> (#[trigger] fracs[j]).denominator.value_s(v).canon()
            != QM31::zero_el()
}

/// A batch's formal sum has the value of the sum.
proof fn lemma_batch_value(fracs: Seq<Fraction<ExtExpr, ExtExpr>>, v: Values, from: int, to: int)
    requires
        0 <= from < to <= fracs.len(),
        no_poles(fracs, v),
    ensures
        batch_sum(fracs, from, to).denominator.value_s(v).canon() != QM31::zero_el(),
        batch_sum(fracs, from, to).numerator.value_s(v).times(
            inv_of(batch_sum(fracs, from, to).denominator.value_s(v)),
        ) == range_total(fracs, v, from, to),
    decreases to - from,
{
    let zero = QM31::zero_el();
    if to == from + 1 {
        let f = fracs[from];
        assert(fracs[from].denominator.value_s(v).canon() != zero);
        let q = f.numerator.value_s(v).times(inv_of(f.denominator.value_s(v)));
        assert(range_total(fracs, v, from, to - 1) == zero);
        QM31::law_add_comm(zero, q);
        QM31::law_add_zero(q);
        QM31::law_canon_results(f.numerator.value_s(v), inv_of(f.denominator.value_s(v)));
    } else {
        lemma_batch_value(fracs, v, from, to - 1);
        let a = batch_sum(fracs, from, to - 1);
        let b = fracs[to - 1];
        assert(fracs[to - 1].denominator.value_s(v).canon() != zero);
        lemma_fraction_sum(
            a.numerator.value_s(v),
            a.denominator.value_s(v),
            b.numerator.value_s(v),
            b.denominator.value_s(v),
        );
        reveal_with_fuel(ExtExpr::value_s, 3);
    }
}

proof fn lemma_total_split(
    fracs: Seq<Fraction<ExtExpr, ExtExpr>>,
    v: Values,
    mid: int,
    to: int,
)
    requires
        0 <= mid <= to <= fracs.len(),
    ensures
        range_total(fracs, v, 0, to) == range_total(fracs, v, 0, mid).plus(
            range_total(fracs, v, mid, to),
        ),
        range_total(fracs, v, 0, to).canon() == range_total(fracs, v, 0, to),
    decreases to - mid, to,
{
    let head = range_total(fracs, v, 0, mid);
    let zero = QM31::zero_el();
    QM31::law_canon_results(zero, zero);
    if to > 0 {
        let q = fracs[to - 1].numerator.value_s(v).times(
            inv_of(fracs[to - 1].denominator.value_s(v)),
        );
        QM31::law_canon_results(range_total(fracs, v, 0, to - 1), q);
        if mid < to {
            lemma_total_split(fracs, v, mid, to - 1);
            QM31::law_add_assoc(head, range_total(fracs, v, mid, to - 1), q);
        }
    }
    if mid == to {
        QM31::law_add_zero(head);
    }
}

/// `x - b = t` makes `x` the sum `b + t`.
proof fn lemma_move_over<F: Field>(x: F, b: F, t: F)
    requires
        x.minus(b).canon() == t,
    ensures
        x.canon() == b.plus(t),
{
    F::law_canon_results(x, b);
    F::law_sub(x, b);
    F::law_add_assoc(b, x, b.opposite());
    F::law_add_comm(b, x);
    F::law_add_assoc(x, b, b.opposite());
    F::law_add_opposite(b);
    F::law_add_zero(x);
}

/// The value of a batch's step under its constraint.
proof fn lemma_step(logup: FormalLogupAtRow, first: int, i: int, size: nat, v: Values)
    requires
        size > 0,
        0 <= i < batch_count(logup.fracs@.len(), size),
        no_poles(logup.fracs@, v),
        logup.batch_constraint(first, i, size).value_s(v) == QM31::zero_el(),
    ensures
        ({
            let n = logup.fracs@.len();
            let current = secure_mask(logup.interaction, first + 4 * i, 0).value_s(v);
            let before = if i == 0 {
                QM31::zero_el()
            } else {
                secure_mask(logup.interaction, first + 4 * (i - 1), 0).value_s(v)
            };
            let previous_row = secure_mask(
                logup.interaction,
                first + 4 * i,
                (-1) as isize,
            ).value_s(v);
            let total = range_total(
                logup.fracs@,
                v,
                i * size,
                smaller((i + 1) * size, n as int),
            );
            if i + 1 < batch_count(n, size) {
                current.minus(before).canon() == total
            } else {
                current.minus(previous_row).minus(before).plus(
                    logup.cumsum_shift.value_s(v),
                ).canon() == total
            }
        }),
{
    let n = logup.fracs@.len();
    lemma_batches(n, size, i);
    let to = smaller((i + 1) * size, n as int);
    lemma_batch_value(logup.fracs@, v, i * size, to);
    let sum = logup.batch(i, size);
    let c = logup.batch_constraint(first, i, size);
    reveal_with_fuel(ExtExpr::value_s, 2);
    let product = *c->Sub_0;
    let step = *product->Mul_0;
    assert(c.value_s(v) == product.value_s(v).minus(sum.numerator.value_s(v)));
    assert(product.value_s(v) == step.value_s(v).times(sum.denominator.value_s(v)));
    lemma_quotient(step.value_s(v), sum.denominator.value_s(v), sum.numerator.value_s(v));
    reveal_with_fuel(ExtExpr::value_s, 4);
}

/// Below the last, each lookup column holds the running sum of the fractions.
proof fn lemma_running_sum(logup: FormalLogupAtRow, first: int, i: int, size: nat, v: Values)
    requires
        size > 0,
        0 <= i < batch_count(logup.fracs@.len(), size) - 1,
        no_poles(logup.fracs@, v),
        forall|j: int|
            0 <= j < batch_count(logup.fracs@.len(), size) ==> (#[trigger] logup.batch_constraint(
                first,
                j,
                size,
            )).value_s(v) == QM31::zero_el(),
    ensures
        secure_mask(logup.interaction, first + 4 * i, 0).value_s(v).canon() == range_total(
            logup.fracs@,
            v,
            0,
            (i + 1) * size,
        ),
    decreases i,
{
    let n = logup.fracs@.len();
    lemma_batches(n, size, i);
    assert(logup.batch_constraint(first, i, size).value_s(v) == QM31::zero_el());
    lemma_step(logup, first, i, size, v);
    let x = secure_mask(logup.interaction, first + 4 * i, 0).value_s(v);
    let zero = QM31::zero_el();
    lemma_total_split(logup.fracs@, v, i * size, (i + 1) * size);
    let t = range_total(logup.fracs@, v, i * size, (i + 1) * size);
    if i == 0 {
        assert(0 * size == 0) by (nonlinear_arith);
        lemma_move_over(x, zero, t);
        assert(range_total(logup.fracs@, v, 0, 0) == zero);
    } else {
        lemma_running_sum(logup, first, i - 1, size, v);
        let b = secure_mask(logup.interaction, first + 4 * (i - 1), 0).value_s(v);
        assert((i - 1 + 1) * size == i * size);
        lemma_move_over(x, b, t);
        QM31::law_canon_args(b, t);
    }
}

/// Where all lookup constraints hold at a row, the last lookup column grows over the previous row
/// by the sum of the row's fractions, less the shift.
pub proof fn lemma_lookup_row(logup: FormalLogupAtRow, first: int, size: nat, v: Values)
    requires
        size > 0,
        logup.fracs@.len() > 0,
        no_poles(logup.fracs@, v),
        forall|j: int|
            0 <= j < batch_count(logup.fracs@.len(), size) ==> (#[trigger] logup.batch_constraint(
                first,
                j,
                size,
            )).value_s(v) == QM31::zero_el(),
    ensures
        ({
            let last = first + 4 * (batch_count(logup.fracs@.len(), size) - 1);
            let current = secure_mask(logup.interaction, last, 0).value_s(v);
            let previous = secure_mask(logup.interaction, last, (-1) as isize).value_s(v);
            current.minus(previous).plus(logup.cumsum_shift.value_s(v)) == range_total(
                logup.fracs@,
                v,
                0,
                logup.fracs@.len() as int,
            )
        }),
{
    let n = logup.fracs@.len();
    lemma_fundamental_div_mod(n - 1, size as int);
    lemma_mod_bound(n - 1, size as int);
    assert(0 <= (n - 1) / size as int) by {
        vstd::arithmetic::div_mod::lemma_div_pos_is_pos(n - 1, size as int);
    }
    let i = batch_count(n, size) - 1;
    lemma_batches(n, size, i);
    assert(logup.batch_constraint(first, i, size).value_s(v) == QM31::zero_el());
    lemma_step(logup, first, i, size, v);
    let x = secure_mask(logup.interaction, first + 4 * i, 0).value_s(v);
    let p = secure_mask(logup.interaction, first + 4 * i, (-1) as isize).value_s(v);
    let shift = logup.cumsum_shift.value_s(v);
    let d = x.minus(p);
    let zero = QM31::zero_el();
    let t = range_total(logup.fracs@, v, i * size, n as int);
    let b = if i == 0 {
        zero
    } else {
        secure_mask(logup.interaction, first + 4 * (i - 1), 0).value_s(v)
    };
    // (d - b) + shift = (d + shift) - b
    QM31::law_sub(d, b);
    QM31::law_add_assoc(d, b.opposite(), shift);
    QM31::law_add_comm(b.opposite(), shift);
    QM31::law_add_assoc(d, shift, b.opposite());
    QM31::law_sub(d.plus(shift), b);
    lemma_move_over(d.plus(shift), b, t);
    QM31::law_canon_results(d, shift);
    lemma_total_split(logup.fracs@, v, i * size, n as int);
    if i == 0 {
        assert(0 * size == 0) by (nonlinear_arith);
        assert(range_total(logup.fracs@, v, 0, 0) == zero);
    } else {
        lemma_running_sum(logup, first, i - 1, size, v);
        assert((i - 1 + 1) * size == i * size);
        QM31::law_canon_args(b, t);
    }
}

} // verus!
