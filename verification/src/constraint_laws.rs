//! The function with a simple zero at a point, and the derivative of a vanishing polynomial.

use vstd::prelude::*;

use crate::circle::{double_x_iter, double_x_s, norm_of, CirclePoint};
use crate::constraints::{double_derivative, point_vanishing_s};
use crate::fields::{
    inv_of, lemma_inv_exists, lemma_mul_opposite, lemma_mul_zero, lemma_opposite_twice, Field,
};
use crate::line::lemma_double_x_first;
use crate::poly::lagrange::lemma_double_difference;
use crate::quotient_laws::lemma_minus_self;

verus! {

/// The slope between `x` and `t` of the `m`-fold double.
pub open spec fn slope<F: Field>(x: F, t: F, m: nat) -> F
    decreases m,
{
    if m == 0 {
        F::one_el()
    } else {
        x.plus(t).plus(x.plus(t)).times(slope(double_x_s(x), double_x_s(t), (m - 1) as nat))
    }
}

/// `(2x^2 - 1) - (2t^2 - 1) = (x - t) * 2(x + t)`.
proof fn lemma_double_step<F: Field>(x: F, t: F)
    ensures
        double_x_s(x).minus(double_x_s(t)) == x.minus(t).times(x.plus(t).plus(x.plus(t))),
{
    let (s, d) = (x.plus(t), x.minus(t));
    lemma_double_difference(x, t);
    F::law_mul_comm(d, s);
    F::law_distrib(d, s, s);
}

/// The `m`-fold double differs between two places by their difference times the slope, and where
/// the places meet the slope is the derivative.
pub proof fn lemma_derivative<F: Field>(x: F, t: F, m: nat)
    ensures
        double_x_iter(x, m).minus(double_x_iter(t, m)) == x.minus(t).times(slope(x, t, m)),
        slope(x, x, m) == double_derivative(x, m),
    decreases m,
{
    if m == 0 {
        F::law_mul_one(x.minus(t));
        F::law_canon_results(x, t);
    } else {
        let k = (m - 1) as nat;
        let (y, u) = (double_x_s(x), double_x_s(t));
        lemma_double_x_first(x, k);
        lemma_double_x_first(t, k);
        lemma_derivative(y, u, k);
        lemma_double_step(x, t);
        F::law_mul_assoc(x.minus(t), x.plus(t).plus(x.plus(t)), slope(y, u, k));
    }
}

/// The function of a point vanishes there, and times what it is divided by it is the `y`
/// coordinate of the difference: `(1 + h.x) * f = h.y`.
pub proof fn lemma_point_vanishing<F: Field>(excluded: CirclePoint<F>, p: CirclePoint<F>)
    requires
        norm_of(excluded) == F::one_el(),
    ensures
        point_vanishing_s(excluded, excluded) == F::zero_el(),
        ({
            let x = p.x.times(excluded.x).plus(p.y.times(excluded.y));
            let y = p.y.times(excluded.x).minus(p.x.times(excluded.y));
            F::one_el().plus(x) != F::zero_el() ==> point_vanishing_s(excluded, p).times(
                F::one_el().plus(x),
            ) == y
        }),
{
    lemma_difference(excluded, excluded);
    lemma_difference(excluded, p);
    let e = excluded;
    F::law_mul_comm(e.x, e.y);
    lemma_minus_self(e.y.times(e.x));
    let d = F::one_el().plus(e.join(e.reflected()).x);
    lemma_mul_zero(inv_of(d));
    F::law_mul_comm(F::zero_el(), inv_of(d));
    let h = p.join(e.reflected());
    let q = F::one_el().plus(h.x);
    F::law_canon_results(F::one_el(), h.x);
    if q != F::zero_el() {
        lemma_inv_exists(q);
        F::law_mul_assoc(h.y, inv_of(q), q);
        F::law_mul_comm(inv_of(q), q);
        F::law_mul_one(h.y);
        F::law_canon_results(p.y.times(e.x), p.x.times(e.y));
    }
}

/// The coordinates of the difference of two points.
pub proof fn lemma_difference<F: Field>(q: CirclePoint<F>, p: CirclePoint<F>)
    ensures
        p.join(q.reflected()).x == p.x.times(q.x).plus(p.y.times(q.y)),
        p.join(q.reflected()).y == p.y.times(q.x).minus(p.x.times(q.y)),
{
    let (yb, xb, ya) = (p.y.times(q.y), p.x.times(q.y), p.y.times(q.x));
    lemma_mul_opposite(p.y, q.y);
    lemma_mul_opposite(p.x, q.y);
    F::law_sub(p.x.times(q.x), yb.opposite());
    lemma_opposite_twice(yb);
    F::law_canon_results(p.y, q.y);
    F::law_sub(ya, xb);
    F::law_add_comm(xb.opposite(), ya);
}

} // verus!
