//! Finite fields: the base field, its complex extension and the secure field.
//!
//! Elements are kept as raw machine words. The word `P` and the word zero both stand for zero,
//! so the field laws hold up to [`Field::canon`], the choice of the representative below `P`.
//! Every operation returns that representative.

use vstd::prelude::*;

pub mod batch;
pub mod cm31;
pub mod gaussian;
pub mod m31;
pub mod prime;
pub mod qm31;
pub mod quadratic;
pub mod residues;

verus! {

/// A field given by representatives.
pub trait Field: Copy {
    spec fn zero_el() -> Self;

    spec fn one_el() -> Self;

    spec fn plus(self, rhs: Self) -> Self;

    spec fn minus(self, rhs: Self) -> Self;

    spec fn times(self, rhs: Self) -> Self;

    spec fn opposite(self) -> Self;

    /// The canonical representative of the same element.
    spec fn canon(self) -> Self;

    proof fn law_add_comm(a: Self, b: Self)
        ensures
            a.plus(b) == b.plus(a),
    ;

    proof fn law_add_assoc(a: Self, b: Self, c: Self)
        ensures
            a.plus(b).plus(c) == a.plus(b.plus(c)),
    ;

    proof fn law_add_zero(a: Self)
        ensures
            a.plus(Self::zero_el()) == a.canon(),
    ;

    proof fn law_add_opposite(a: Self)
        ensures
            a.plus(a.opposite()) == Self::zero_el(),
    ;

    proof fn law_sub(a: Self, b: Self)
        ensures
            a.minus(b) == a.plus(b.opposite()),
    ;

    proof fn law_mul_comm(a: Self, b: Self)
        ensures
            a.times(b) == b.times(a),
    ;

    proof fn law_mul_assoc(a: Self, b: Self, c: Self)
        ensures
            a.times(b).times(c) == a.times(b.times(c)),
    ;

    proof fn law_mul_one(a: Self)
        ensures
            a.times(Self::one_el()) == a.canon(),
    ;

    proof fn law_distrib(a: Self, b: Self, c: Self)
        ensures
            a.times(b.plus(c)) == a.times(b).plus(a.times(c)),
    ;

    /// The operations see only the element, not its representative.
    proof fn law_canon_args(a: Self, b: Self)
        ensures
            a.canon().plus(b) == a.plus(b),
            a.canon().times(b) == a.times(b),
            a.canon().opposite() == a.opposite(),
    ;

    /// The operations return canonical representatives.
    proof fn law_canon_results(a: Self, b: Self)
        ensures
            a.plus(b).canon() == a.plus(b),
            a.minus(b).canon() == a.minus(b),
            a.times(b).canon() == a.times(b),
            a.opposite().canon() == a.opposite(),
            a.canon().canon() == a.canon(),
            Self::zero_el().canon() == Self::zero_el(),
            Self::one_el().canon() == Self::one_el(),
    ;

    proof fn law_nontrivial()
        ensures
            Self::zero_el() != Self::one_el(),
    ;

    proof fn law_inverse(a: Self)
        requires
            a.canon() != Self::zero_el(),
        ensures
            exists|y: Self| a.times(y) == Self::one_el(),
    ;

    fn zero() -> (r: Self)
        ensures
            r == Self::zero_el(),
    ;

    fn one() -> (r: Self)
        ensures
            r == Self::one_el(),
    ;

    fn add(self, rhs: Self) -> (r: Self)
        ensures
            r == self.plus(rhs),
    ;

    fn sub(self, rhs: Self) -> (r: Self)
        ensures
            r == self.minus(rhs),
    ;

    fn mul(self, rhs: Self) -> (r: Self)
        ensures
            r == self.times(rhs),
    ;

    fn neg(self) -> (r: Self)
        ensures
            r == self.opposite(),
    ;

    /// Whether the element is zero, under any of its representations.
    fn is_zero(self) -> (r: bool)
        ensures
            r <==> self.canon() == Self::zero_el(),
    ;

    /// The multiplicative inverse of a non-zero element.
    fn inverse(self) -> (r: Self)
        requires
            self.canon() != Self::zero_el(),
        ensures
            self.times(r) == Self::one_el(),
            r.canon() == r,
    ;
}

/// `(a + b) * c = a * c + b * c`.
pub proof fn lemma_distrib_right<F: Field>(a: F, b: F, c: F)
    ensures
        a.plus(b).times(c) == a.times(c).plus(b.times(c)),
{
    F::law_mul_comm(a.plus(b), c);
    F::law_distrib(c, a, b);
    F::law_mul_comm(c, a);
    F::law_mul_comm(c, b);
}

/// Moves a factor across: `a * (b * c) = b * (a * c)`.
pub proof fn lemma_mul_swap<F: Field>(a: F, b: F, c: F)
    ensures
        a.times(b.times(c)) == b.times(a.times(c)),
{
    F::law_mul_assoc(a, b, c);
    F::law_mul_comm(a, b);
    F::law_mul_assoc(b, a, c);
}

/// `(a + b) + (c + d) = (a + c) + (b + d)`.
pub proof fn lemma_add_swap_middle<F: Field>(a: F, b: F, c: F, d: F)
    ensures
        a.plus(b).plus(c.plus(d)) == a.plus(c).plus(b.plus(d)),
{
    F::law_add_assoc(a, b, c.plus(d));
    F::law_add_assoc(b, c, d);
    F::law_add_comm(b, c);
    F::law_add_assoc(c, b, d);
    F::law_add_assoc(a, c, b.plus(d));
}

/// Equal sums with a common term have equal other terms.
pub proof fn lemma_add_cancel<F: Field>(a: F, b: F, c: F)
    requires
        a.plus(b) == a.plus(c),
    ensures
        b.canon() == c.canon(),
{
    let n = a.opposite();
    F::law_add_assoc(n, a, b);
    F::law_add_assoc(n, a, c);
    F::law_add_comm(n, a);
    F::law_add_opposite(a);
    F::law_add_comm(F::zero_el(), b);
    F::law_add_comm(F::zero_el(), c);
    F::law_add_zero(b);
    F::law_add_zero(c);
}

/// The opposite is the only element that cancels.
pub proof fn lemma_opposite_unique<F: Field>(a: F, b: F)
    requires
        a.plus(b) == F::zero_el(),
    ensures
        b.canon() == a.opposite(),
{
    F::law_add_opposite(a);
    lemma_add_cancel(a, b, a.opposite());
    F::law_canon_results(a, a);
}

/// `a * 0 = 0`.
pub proof fn lemma_mul_zero<F: Field>(a: F)
    ensures
        a.times(F::zero_el()) == F::zero_el(),
        F::zero_el().times(a) == F::zero_el(),
{
    let z = F::zero_el();
    F::law_add_zero(z);
    F::law_canon_results(z, z);
    F::law_distrib(a, z, z);
    F::law_add_zero(a.times(z));
    F::law_canon_results(a, z);
    lemma_add_cancel(a.times(z), a.times(z), z);
    F::law_mul_comm(a, z);
}

/// `a * (-b) = -(a * b)`.
pub proof fn lemma_mul_opposite<F: Field>(a: F, b: F)
    ensures
        a.times(b.opposite()) == a.times(b).opposite(),
        a.opposite().times(b) == a.times(b).opposite(),
{
    F::law_distrib(a, b, b.opposite());
    F::law_add_opposite(b);
    lemma_mul_zero(a);
    lemma_opposite_unique(a.times(b), a.times(b.opposite()));
    F::law_canon_results(a, b.opposite());
    F::law_distrib(b, a, a.opposite());
    F::law_add_opposite(a);
    lemma_mul_zero(b);
    F::law_mul_comm(b, a);
    F::law_mul_comm(b, a.opposite());
    lemma_opposite_unique(a.times(b), a.opposite().times(b));
    F::law_canon_results(a.opposite(), b);
}

/// `-(-a)` is `a`.
pub proof fn lemma_opposite_twice<F: Field>(a: F)
    ensures
        a.opposite().opposite() == a.canon(),
{
    F::law_add_opposite(a);
    F::law_add_comm(a, a.opposite());
    lemma_opposite_unique(a.opposite(), a);
}

/// `-(a + b) = -a + -b`.
pub proof fn lemma_opposite_sum<F: Field>(a: F, b: F)
    ensures
        a.plus(b).opposite() == a.opposite().plus(b.opposite()),
{
    lemma_add_swap_middle(a, b, a.opposite(), b.opposite());
    F::law_add_opposite(a);
    F::law_add_opposite(b);
    F::law_add_zero(F::zero_el());
    F::law_canon_results(a.opposite(), b.opposite());
    lemma_opposite_unique(a.plus(b), a.opposite().plus(b.opposite()));
}

/// `(a - b) * c = a * c - b * c`.
pub proof fn lemma_distrib_sub_right<F: Field>(a: F, b: F, c: F)
    ensures
        a.minus(b).times(c) == a.times(c).minus(b.times(c)),
{
    F::law_sub(a, b);
    lemma_distrib_right(a, b.opposite(), c);
    lemma_mul_opposite(b, c);
    F::law_sub(a.times(c), b.times(c));
}

/// `a * (b - c) = a * b - a * c`.
pub proof fn lemma_distrib_sub<F: Field>(a: F, b: F, c: F)
    ensures
        a.times(b.minus(c)) == a.times(b).minus(a.times(c)),
{
    F::law_mul_comm(a, b.minus(c));
    lemma_distrib_sub_right(b, c, a);
    F::law_mul_comm(a, b);
    F::law_mul_comm(a, c);
}

/// `(-1) * a = -a`.
pub proof fn lemma_neg_one_times<F: Field>(a: F)
    ensures
        F::one_el().opposite().times(a) == a.opposite(),
{
    lemma_mul_opposite(F::one_el(), a);
    F::law_mul_comm(F::one_el(), a);
    F::law_mul_one(a);
    F::law_canon_args(a, a);
}

/// A product vanishes only if a factor does.
pub proof fn lemma_integral<F: Field>(a: F, b: F)
    requires
        a.times(b) == F::zero_el(),
    ensures
        a.canon() == F::zero_el() || b.canon() == F::zero_el(),
{
    if a.canon() != F::zero_el() {
        F::law_inverse(a);
        let y = choose|y: F| a.times(y) == F::one_el();
        F::law_mul_assoc(y, a, b);
        F::law_mul_comm(y, a);
        lemma_mul_zero(y);
        F::law_mul_comm(F::one_el(), b);
        F::law_mul_one(b);
    }
}

/// Inverses are unique.
pub proof fn lemma_inverse_unique<F: Field>(a: F, x: F, y: F)
    requires
        a.times(x) == F::one_el(),
        a.times(y) == F::one_el(),
    ensures
        x.canon() == y.canon(),
{
    F::law_mul_assoc(x, a, y);
    F::law_mul_comm(x, a);
    F::law_mul_comm(F::one_el(), y);
    F::law_mul_one(x);
    F::law_mul_one(y);
}

/// A product of non-zero elements is non-zero.
pub proof fn lemma_product_nonzero<F: Field>(a: F, b: F)
    requires
        a.canon() != F::zero_el(),
        b.canon() != F::zero_el(),
    ensures
        a.times(b).canon() != F::zero_el(),
{
    F::law_canon_results(a, b);
    if a.times(b) == F::zero_el() {
        lemma_integral(a, b);
    }
}

/// An element with an inverse is non-zero.
pub proof fn lemma_invertible_nonzero<F: Field>(a: F, y: F)
    requires
        a.times(y) == F::one_el(),
    ensures
        a.canon() != F::zero_el(),
        y.canon() != F::zero_el(),
{
    F::law_nontrivial();
    F::law_canon_args(a, y);
    F::law_canon_args(y, a);
    F::law_mul_comm(a, y);
    lemma_mul_zero(y);
    lemma_mul_zero(a);
}

/// The inverse of a non-zero element, in canonical form.
pub open spec fn inv_of<F: Field>(a: F) -> F {
    choose|y: F| a.times(y) == F::one_el() && y.canon() == y
}

/// A canonical element that inverts `a` is its inverse.
pub proof fn lemma_inv_of<F: Field>(a: F, y: F)
    requires
        a.times(y) == F::one_el(),
        y.canon() == y,
    ensures
        inv_of(a) == y,
{
    let z = inv_of(a);
    assert(a.times(z) == F::one_el() && z.canon() == z);
    lemma_inverse_unique(a, y, z);
}

/// A non-zero element has its inverse.
pub proof fn lemma_inv_exists<F: Field>(a: F)
    requires
        a.canon() != F::zero_el(),
    ensures
        a.times(inv_of(a)) == F::one_el(),
        inv_of(a).canon() == inv_of(a),
{
    F::law_inverse(a);
    let y = choose|y: F| a.times(y) == F::one_el();
    F::law_canon_args(y, a);
    F::law_mul_comm(y, a);
    F::law_mul_comm(y.canon(), a);
    F::law_canon_results(y, y);
    lemma_inv_of(a, y.canon());
}

/// The operations see neither operand's representative.
pub proof fn lemma_canon_both<F: Field>(a: F, b: F)
    ensures
        a.plus(b) == a.canon().plus(b.canon()),
        a.minus(b) == a.canon().minus(b.canon()),
        a.times(b) == a.canon().times(b.canon()),
{
    F::law_canon_args(a, b);
    F::law_canon_args(b, a.canon());
    F::law_add_comm(a.canon(), b);
    F::law_add_comm(a.canon(), b.canon());
    F::law_mul_comm(a.canon(), b);
    F::law_mul_comm(a.canon(), b.canon());
    F::law_sub(a, b);
    F::law_sub(a.canon(), b.canon());
    F::law_canon_args(a, b.opposite());
}

} // verus!
