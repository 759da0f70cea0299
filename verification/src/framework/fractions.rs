//! Sums of fractions over their common denominator.

use vstd::prelude::*;

use super::domain::{fraction_sum, range_sum};
use super::evaluator::Fraction;
use crate::fields::qm31::QM31;
use crate::fields::{lemma_distrib_right, lemma_mul_zero, Field};

verus! {

/// The product of the first `n` denominators, without that of place `skip`.
pub open spec fn denominators_but(fracs: Seq<Fraction<QM31, QM31>>, n: nat, skip: int) -> QM31
    decreases n,
{
    if n == 0 {
        QM31::one_el()
    } else if skip == n - 1 {
        denominators_but(fracs, (n - 1) as nat, skip)
    } else {
        denominators_but(fracs, (n - 1) as nat, skip).times(fracs[n - 1].denominator)
    }
}

/// The product of the first `n` denominators.
pub open spec fn denominators(fracs: Seq<Fraction<QM31, QM31>>, n: nat) -> QM31 {
    denominators_but(fracs, n, -1)
}

/// The first `m` numerators, each times the other denominators of the first `n` fractions, added
/// up.
pub open spec fn cross_sum(fracs: Seq<Fraction<QM31, QM31>>, n: nat, m: nat) -> QM31
    decreases m,
{
    if m == 0 {
        QM31::zero_el()
    } else {
        cross_sum(fracs, n, (m - 1) as nat).plus(
            fracs[m - 1].numerator.times(denominators_but(fracs, n, m - 1)),
        )
    }
}

proof fn lemma_denominators_canonical(fracs: Seq<Fraction<QM31, QM31>>, n: nat, skip: int)
    ensures
        denominators_but(fracs, n, skip).canon() == denominators_but(fracs, n, skip),
    decreases n,
{
    QM31::law_canon_results(QM31::one_el(), QM31::one_el());
    if n > 0 {
        lemma_denominators_canonical(fracs, (n - 1) as nat, skip);
        QM31::law_canon_results(
            denominators_but(fracs, (n - 1) as nat, skip),
            fracs[n - 1].denominator,
        );
    }
}

proof fn lemma_skip_beyond(fracs: Seq<Fraction<QM31, QM31>>, n: nat, skip: int)
    requires
        skip >= n,
    ensures
        denominators_but(fracs, n, skip) == denominators(fracs, n),
    decreases n,
{
    if n > 0 {
        lemma_skip_beyond(fracs, (n - 1) as nat, skip);
    }
}

/// One more fraction multiplies the terms of those before it by its denominator.
proof fn lemma_cross_sum_grows(fracs: Seq<Fraction<QM31, QM31>>, n: nat, m: nat)
    requires
        n > 0,
        m < n,
    ensures
        cross_sum(fracs, n, m) == cross_sum(fracs, (n - 1) as nat, m).times(
            fracs[n - 1].denominator,
        ),
    decreases m,
{
    let d = fracs[n - 1].denominator;
    if m == 0 {
        lemma_mul_zero(d);
    } else {
        let k = (m - 1) as nat;
        lemma_cross_sum_grows(fracs, n, k);
        let a = fracs[m - 1].numerator;
        let p = denominators_but(fracs, (n - 1) as nat, m - 1);
        QM31::law_mul_assoc(a, p, d);
        lemma_distrib_right(cross_sum(fracs, (n - 1) as nat, k), a.times(p), d);
    }
}

/// Fractions added from left to right have as denominator the product of all denominators, and as
/// numerator the sum of all numerators, each times the other denominators.
pub proof fn lemma_sum_over_common_denominator(fracs: Seq<Fraction<QM31, QM31>>, n: nat)
    requires
        0 < n <= fracs.len(),
    ensures
        range_sum(fracs, 0, n as int).denominator.canon() == denominators(fracs, n),
        range_sum(fracs, 0, n as int).numerator.canon() == cross_sum(fracs, n, n),
    decreases n,
{
    let m = (n - 1) as nat;
    let last = fracs[n - 1];
    lemma_skip_beyond(fracs, m, n - 1);
    lemma_denominators_canonical(fracs, m, -1);
    if n == 1 {
        let one = QM31::one_el();
        QM31::law_mul_comm(one, last.denominator);
        QM31::law_mul_one(last.denominator);
        QM31::law_mul_one(last.numerator);
        QM31::law_add_comm(QM31::zero_el(), last.numerator.canon());
        QM31::law_add_zero(last.numerator.canon());
        QM31::law_canon_results(last.numerator, last.denominator);
        assert(denominators_but(fracs, 0, -1) == one);
        assert(denominators_but(fracs, 0, 0) == one);
        assert(denominators_but(fracs, 1, 0) == one);
        assert(cross_sum(fracs, 1, 0) == QM31::zero_el());
    } else {
        lemma_sum_over_common_denominator(fracs, m);
        let before = range_sum(fracs, 0, m as int);
        assert(range_sum(fracs, 0, n as int) == fraction_sum(before, last));
        // The denominator.
        QM31::law_canon_args(before.denominator, last.denominator);
        QM31::law_canon_results(before.denominator, last.denominator);
        // The numerator.
        lemma_cross_sum_grows(fracs, n, m);
        let x = last.denominator.times(before.numerator);
        let y = before.denominator.times(last.numerator);
        QM31::law_mul_comm(last.denominator, before.numerator);
        QM31::law_canon_args(before.numerator, last.denominator);
        QM31::law_canon_args(before.denominator, last.numerator);
        QM31::law_mul_comm(before.denominator.canon(), last.numerator);
        QM31::law_canon_results(x, y);
    }
}

} // verus!
