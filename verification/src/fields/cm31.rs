//! The complex extension of the prime field: `a + b * i` with `i^2 = -1`.

use vstd::arithmetic::div_mod::{lemma_add_mod_noop, lemma_mod_bound, lemma_mul_mod_noop};
use vstd::prelude::*;

use super::m31::{M31, P};
use super::quadratic::{
    lemma_quad_assoc, lemma_quad_canon, lemma_quad_comm, lemma_quad_distrib, lemma_quad_inverse,
    lemma_quad_one, quad_fst, quad_norm, quad_snd,
};
use super::residues::lemma_sum_of_squares;
use super::{lemma_neg_one_times, lemma_opposite_twice, Field};

verus! {

/// An element `self.0 + self.1 * i`.
#[derive(Clone, Copy, Debug, PartialEq, Eq, Structural, Hash, PartialOrd, Ord)]
pub struct CM31(pub M31, pub M31);

impl CM31 {
    pub fn from_u32_unchecked(a: u32, b: u32) -> (r: CM31)
        ensures
            r == CM31(M31(a), M31(b)),
    {
        CM31(M31(a), M31(b))
    }

    pub fn from_m31(a: M31, b: M31) -> (r: CM31)
        ensures
            r == CM31(a, b),
    {
        CM31(a, b)
    }

    /// The product with a base field element.
    pub open spec fn scaled(self, k: M31) -> CM31 {
        CM31(self.0.times(k), self.1.times(k))
    }

    pub fn mul_m31(self, k: M31) -> (r: CM31)
        ensures
            r == self.scaled(k),
    {
        CM31(self.0.mul(k), self.1.mul(k))
    }

    pub fn square(self) -> (r: CM31)
        ensures
            r == self.times(self),
    {
        self.mul(self)
    }
}

/// The product written with the square of `i`.
proof fn lemma_times_quad(a: CM31, b: CM31)
    ensures
        a.times(b).0 == quad_fst(M31::one_el().opposite(), a.0, a.1, b.0, b.1),
        a.times(b).1 == quad_snd(a.0, a.1, b.0, b.1),
{
    M31::law_sub(a.0.times(b.0), a.1.times(b.1));
    lemma_neg_one_times(a.1.times(b.1));
}

/// The norm of a non-zero element is non-zero.
pub proof fn lemma_norm_nonzero(a: CM31)
    requires
        a.canon() != CM31::zero_el(),
    ensures
        a.0.times(a.0).plus(a.1.times(a.1)) != M31::zero_el(),
{
    let p = P as int;
    let x = a.0.canon().0 as int;
    let y = a.1.canon().0 as int;
    lemma_mod_bound(a.0.0 as int, p);
    lemma_mod_bound(a.1.0 as int, p);
    if a.0.times(a.0).plus(a.1.times(a.1)) == M31::zero_el() {
        lemma_mul_mod_noop(a.0.0 as int, a.0.0 as int, p);
        lemma_mul_mod_noop(a.1.0 as int, a.1.0 as int, p);
        lemma_mod_bound(a.0.0 * a.0.0, p);
        lemma_mod_bound(a.1.0 * a.1.0, p);
        lemma_mod_bound(a.0.times(a.0).0 + a.1.times(a.1).0, p);
        lemma_add_mod_noop(x * x, y * y, p);
        lemma_sum_of_squares(x, y);
    }
}

proof fn lemma_norm_quad(a: CM31)
    ensures
        quad_norm(M31::one_el().opposite(), a.0, a.1) == a.0.times(a.0).plus(a.1.times(a.1)),
{
    let bb = a.1.times(a.1);
    lemma_neg_one_times(bb);
    M31::law_sub(a.0.times(a.0), bb.opposite());
    lemma_opposite_twice(bb);
    M31::law_canon_results(a.1, a.1);
}

impl Default for CM31 {
    fn default() -> (r: CM31)
        ensures
            r == CM31::zero_el(),
    {
        CM31(M31(0), M31(0))
    }
}

impl Field for CM31 {
    open spec fn zero_el() -> CM31 {
        CM31(M31(0), M31(0))
    }

    open spec fn one_el() -> CM31 {
        CM31(M31(1), M31(0))
    }

    open spec fn plus(self, rhs: CM31) -> CM31 {
        CM31(self.0.plus(rhs.0), self.1.plus(rhs.1))
    }

    open spec fn minus(self, rhs: CM31) -> CM31 {
        CM31(self.0.minus(rhs.0), self.1.minus(rhs.1))
    }

    open spec fn times(self, rhs: CM31) -> CM31 {
        CM31(
            self.0.times(rhs.0).minus(self.1.times(rhs.1)),
            self.0.times(rhs.1).plus(self.1.times(rhs.0)),
        )
    }

    open spec fn opposite(self) -> CM31 {
        CM31(self.0.opposite(), self.1.opposite())
    }

    open spec fn canon(self) -> CM31 {
        CM31(self.0.canon(), self.1.canon())
    }

    proof fn law_add_comm(a: CM31, b: CM31) {
        M31::law_add_comm(a.0, b.0);
        M31::law_add_comm(a.1, b.1);
    }

    proof fn law_add_assoc(a: CM31, b: CM31, c: CM31) {
        M31::law_add_assoc(a.0, b.0, c.0);
        M31::law_add_assoc(a.1, b.1, c.1);
    }

    proof fn law_add_zero(a: CM31) {
        M31::law_add_zero(a.0);
        M31::law_add_zero(a.1);
    }

    proof fn law_add_opposite(a: CM31) {
        M31::law_add_opposite(a.0);
        M31::law_add_opposite(a.1);
    }

    proof fn law_sub(a: CM31, b: CM31) {
        M31::law_sub(a.0, b.0);
        M31::law_sub(a.1, b.1);
    }

    proof fn law_mul_comm(a: CM31, b: CM31) {
        lemma_times_quad(a, b);
        lemma_times_quad(b, a);
        lemma_quad_comm(M31::one_el().opposite(), a.0, a.1, b.0, b.1);
    }

    proof fn law_mul_assoc(a: CM31, b: CM31, c: CM31) {
        lemma_times_quad(a, b);
        lemma_times_quad(b, c);
        lemma_times_quad(a.times(b), c);
        lemma_times_quad(a, b.times(c));
        lemma_quad_assoc(M31::one_el().opposite(), a.0, a.1, b.0, b.1, c.0, c.1);
    }

    proof fn law_mul_one(a: CM31) {
        lemma_times_quad(a, CM31::one_el());
        lemma_quad_one(M31::one_el().opposite(), a.0, a.1);
    }

    proof fn law_distrib(a: CM31, b: CM31, c: CM31) {
        lemma_times_quad(a, b.plus(c));
        lemma_times_quad(a, b);
        lemma_times_quad(a, c);
        lemma_quad_distrib(M31::one_el().opposite(), a.0, a.1, b.0, b.1, c.0, c.1);
    }

    proof fn law_canon_args(a: CM31, b: CM31) {
        M31::law_canon_args(a.0, b.0);
        M31::law_canon_args(a.1, b.1);
        lemma_times_quad(a, b);
        lemma_times_quad(a.canon(), b);
        lemma_quad_canon(M31::one_el().opposite(), a.0, a.1, b.0, b.1);
    }

    proof fn law_canon_results(a: CM31, b: CM31) {
        M31::law_canon_results(a.0, b.0);
        M31::law_canon_results(a.1, b.1);
        M31::law_canon_results(a.0.times(b.0), a.1.times(b.1));
        M31::law_canon_results(a.0.times(b.1), a.1.times(b.0));
    }

    proof fn law_nontrivial() {
    }

    proof fn law_inverse(a: CM31) {
        lemma_norm_nonzero(a);
        lemma_norm_quad(a);
        let beta = M31::one_el().opposite();
        let n = quad_norm(beta, a.0, a.1);
        M31::law_canon_results(a.0.times(a.0), a.1.times(a.1));
        M31::law_inverse(n);
        let w = choose|w: M31| n.times(w) == M31::one_el();
        lemma_quad_inverse(beta, a.0, a.1, w);
        let y = CM31(a.0.times(w), a.1.opposite().times(w));
        lemma_times_quad(a, y);
        assert(a.times(y) == CM31::one_el());
    }

    fn zero() -> (r: CM31) {
        CM31(M31(0), M31(0))
    }

    fn one() -> (r: CM31) {
        CM31(M31(1), M31(0))
    }

    fn add(self, rhs: CM31) -> (r: CM31) {
        CM31(self.0.add(rhs.0), self.1.add(rhs.1))
    }

    fn sub(self, rhs: CM31) -> (r: CM31) {
        CM31(self.0.sub(rhs.0), self.1.sub(rhs.1))
    }

    fn mul(self, rhs: CM31) -> (r: CM31) {
        CM31(
            self.0.mul(rhs.0).sub(self.1.mul(rhs.1)),
            self.0.mul(rhs.1).add(self.1.mul(rhs.0)),
        )
    }

    fn neg(self) -> (r: CM31) {
        CM31(self.0.neg(), self.1.neg())
    }

    fn is_zero(self) -> (r: bool) {
        self.0.is_zero() && self.1.is_zero()
    }

    /// `1 / (a + bi) = (a - bi) / (a^2 + b^2)`.
    fn inverse(self) -> (r: CM31) {
        let norm = self.0.mul(self.0).add(self.1.mul(self.1));
        proof {
            lemma_norm_nonzero(self);
            M31::law_canon_results(self.0.times(self.0), self.1.times(self.1));
        }
        let n = norm.inverse();
        let r = CM31(self.0.mul(n), self.1.neg().mul(n));
        proof {
            lemma_norm_quad(self);
            lemma_quad_inverse(M31::one_el().opposite(), self.0, self.1, n);
            lemma_times_quad(self, r);
            M31::law_canon_results(self.0, n);
            M31::law_canon_results(self.1.opposite(), n);
        }
        r
    }
}

} // verus!
