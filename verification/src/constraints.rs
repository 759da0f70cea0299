//! Vanishing functions of points and cosets.

use vstd::prelude::*;

use crate::circle::{double_x, double_x_iter, double_x_s, CirclePoint, Coset};
use crate::fields::m31::M31;
use crate::fields::qm31::{embed, QM31};
use crate::fields::{inv_of, lemma_inv_of, Field};

verus! {

/// A point over the base field as one over the secure field.
pub open spec fn embed_point(p: CirclePoint<M31>) -> CirclePoint<QM31> {
    CirclePoint { x: embed(p.x), y: embed(p.y) }
}

impl CirclePoint<M31> {
    pub fn into_ef(self) -> (r: CirclePoint<QM31>)
        ensures
            r == embed_point(self),
    {
        CirclePoint { x: QM31::from_base(self.x), y: QM31::from_base(self.y) }
    }
}

impl CirclePoint<QM31> {
    /// The multiple of the secure field generator.
    pub fn get_point(index: u128) -> (r: CirclePoint<QM31>)
        ensures
            r == crate::circle::secure_gen().multiple(index as nat),
    {
        crate::circle::secure_field_circle_gen().mul(index)
    }
}

/// A function with a simple zero at `excluded`, in terms of the difference `h = p - excluded`:
/// `h.y / (1 + h.x)`.
pub open spec fn point_vanishing_s<F: Field>(excluded: CirclePoint<F>, p: CirclePoint<F>) -> F {
    let h = p.join(excluded.reflected());
    h.y.times(inv_of(F::one_el().plus(h.x)))
}

/// Whether `p` is not the antipode of `excluded`, where the function has its pole.
pub open spec fn no_pole<F: Field>(excluded: CirclePoint<F>, p: CirclePoint<F>) -> bool {
    F::one_el().plus(p.join(excluded.reflected()).x) != F::zero_el()
}

/// The value at `p` of the function that vanishes at `excluded`.
pub fn point_vanishing<F: Field>(excluded: CirclePoint<F>, p: CirclePoint<F>) -> (r: F)
    requires
        no_pole(excluded, p),
    ensures
        r == point_vanishing_s(excluded, p),
{
    let h = p.sub(excluded);
    let d = F::one().add(h.x);
    proof {
        F::law_canon_results(F::one_el(), h.x);
    }
    let inv = d.inverse();
    proof {
        lemma_inv_of(d, inv);
    }
    h.y.mul(inv)
}

/// The point turned so that the coset becomes the one that starts half a step from the neutral
/// point.
pub open spec fn turned(coset: Coset, p: CirclePoint<QM31>) -> CirclePoint<QM31> {
    p.join(embed_point(coset.initial).reflected()).join(
        embed_point(crate::circle::gen_point((coset.step_size.0 / 2) as nat)),
    )
}

/// The polynomial in `x` that vanishes on a coset: the turned `x` coordinate, doubled once less
/// often than the size of the coset.
pub open spec fn coset_vanishing_s(coset: Coset, p: CirclePoint<QM31>) -> QM31 {
    double_x_iter(turned(coset, p).x, (coset.log_size - 1) as nat)
}

/// The value at a point of the polynomial that vanishes on a coset.
pub fn coset_vanishing(coset: Coset, p: CirclePoint<QM31>) -> (r: QM31)
    requires
        coset.wf(),
        1 <= coset.log_size <= 30,
    ensures
        r == coset_vanishing_s(coset, p),
{
    proof {
        let k = (30 - coset.log_size) as nat;
        crate::utils::lemma_pow2_double((31 - coset.log_size) as nat);
        crate::utils::lemma_pow2_bound((31 - coset.log_size) as nat);
        vstd::arithmetic::power2::lemma2_to64();
        vstd::arithmetic::power2::lemma_pow2_strictly_increases(
            (31 - coset.log_size) as nat,
            31,
        );
        vstd::arithmetic::div_mod::lemma_small_mod(
            crate::circle::subgroup_step(coset.log_size as nat),
            crate::circle::circle_order(),
        );
        assert(coset.step_size.0 == 2 * vstd::arithmetic::power2::pow2(k));
    }
    let h = coset.step_size.half();
    let q = p.sub(coset.initial.into_ef()).add(h.to_point().into_ef());
    let mut x = q.x;
    let n: u32 = coset.log_size - 1;
    for k in 0..n
        invariant
            x == double_x_iter(q.x, k as nat),
    {
        x = double_x(x);
    }
    x
}

/// The derivative of the `m`-fold double of `x`: the product of four times each of the doubles
/// below it.
pub open spec fn double_derivative<F: Field>(x: F, m: nat) -> F
    decreases m,
{
    if m == 0 {
        F::one_el()
    } else {
        four_times(x).times(double_derivative(double_x_s(x), (m - 1) as nat))
    }
}

pub open spec fn four_times<F: Field>(x: F) -> F {
    x.plus(x).plus(x.plus(x))
}

/// The derivative of the polynomial that vanishes on the canonical coset of the given size.
pub fn coset_vanishing_derivative(log_size: u32, p: CirclePoint<QM31>) -> (r: QM31)
    requires
        1 <= log_size,
    ensures
        r == double_derivative(p.x, (log_size - 1) as nat),
{
    let n: u32 = log_size - 1;
    let mut acc = QM31::one();
    let mut x = p.x;
    proof {
        QM31::law_mul_comm(acc, double_derivative(x, n as nat));
        QM31::law_mul_one(double_derivative(x, n as nat));
        lemma_derivative_canonical(x, n as nat);
        QM31::law_canon_results(acc, acc);
    }
    for k in 0..n
        invariant
            acc.times(double_derivative(x, (n - k) as nat)) == double_derivative(p.x, n as nat),
            acc.canon() == acc,
    {
        let two = x.add(x);
        let four = two.add(two);
        proof {
            QM31::law_mul_assoc(
                acc,
                four_times(x),
                double_derivative(double_x_s(x), (n - k - 1) as nat),
            );
            QM31::law_canon_results(acc, four);
        }
        acc = acc.mul(four);
        x = double_x(x);
    }
    proof {
        QM31::law_mul_one(acc);
    }
    acc
}

proof fn lemma_derivative_canonical<F: Field>(x: F, m: nat)
    ensures
        double_derivative(x, m).canon() == double_derivative(x, m),
{
    F::law_canon_results(F::one_el(), F::one_el());
    if m > 0 {
        F::law_canon_results(four_times(x), double_derivative(double_x_s(x), (m - 1) as nat));
    }
}

} // verus!
