//! The secure field: `a + b * u` over the complex extension, with `u^2 = 2 + i`.

use vstd::arithmetic::div_mod::{
    lemma_add_mod_noop, lemma_mod_bound, lemma_mul_mod_noop, lemma_sub_mod_noop,
};
use vstd::prelude::*;

use super::cm31::CM31;
use super::m31::{M31, P};
use super::quadratic::{
    lemma_quad_assoc, lemma_quad_canon, lemma_quad_comm, lemma_quad_distrib, lemma_quad_inverse,
    lemma_quad_one, quad_norm,
};
use super::residues::lemma_five_not_square;
use super::{lemma_integral, lemma_mul_swap, lemma_mul_zero, Field};

verus! {

/// The number of base field coordinates of a secure field element.
pub const SECURE_EXTENSION_DEGREE: usize = 4;

/// An element `self.0 + self.1 * u`.
#[derive(Clone, Copy, Debug, PartialEq, Eq, Structural, Hash, PartialOrd, Ord)]
pub struct QM31(pub CM31, pub CM31);

pub type SecureField = QM31;

/// The square of `u`.
pub open spec fn u_squared() -> CM31 {
    CM31(M31(2), M31(1))
}

/// A base field element as a secure field element.
pub open spec fn embed(a: M31) -> QM31 {
    QM31(CM31(a, M31(0)), CM31(M31(0), M31(0)))
}

/// The coordinate-wise definitions of the operations.
#[verifier::opaque]
pub open spec fn sum_el(a: QM31, b: QM31) -> QM31 {
    QM31(a.0.plus(b.0), a.1.plus(b.1))
}

#[verifier::opaque]
pub open spec fn difference_el(a: QM31, b: QM31) -> QM31 {
    QM31(a.0.minus(b.0), a.1.minus(b.1))
}

#[verifier::opaque]
pub open spec fn product_el(a: QM31, b: QM31) -> QM31 {
    QM31(
        a.0.times(b.0).plus(u_squared().times(a.1.times(b.1))),
        a.0.times(b.1).plus(a.1.times(b.0)),
    )
}

#[verifier::opaque]
pub open spec fn negative_el(a: QM31) -> QM31 {
    QM31(a.0.opposite(), a.1.opposite())
}

#[verifier::opaque]
pub open spec fn canonical_el(a: QM31) -> QM31 {
    QM31(a.0.canon(), a.1.canon())
}

#[verifier::opaque]
pub open spec fn scaled_el(a: QM31, k: M31) -> QM31 {
    QM31(a.0.scaled(k), a.1.scaled(k))
}

/// The operations coordinate by coordinate.
pub proof fn lemma_coordinates(a: QM31, b: QM31, k: M31)
    ensures
        a.plus(b) == QM31(a.0.plus(b.0), a.1.plus(b.1)),
        a.minus(b) == QM31(a.0.minus(b.0), a.1.minus(b.1)),
        a.times(b) == QM31(
            a.0.times(b.0).plus(u_squared().times(a.1.times(b.1))),
            a.0.times(b.1).plus(a.1.times(b.0)),
        ),
        a.opposite() == QM31(a.0.opposite(), a.1.opposite()),
        a.canon() == QM31(a.0.canon(), a.1.canon()),
        a.scaled(k) == QM31(a.0.scaled(k), a.1.scaled(k)),
{
    reveal(sum_el);
    reveal(difference_el);
    reveal(product_el);
    reveal(negative_el);
    reveal(canonical_el);
    reveal(scaled_el);
}

impl QM31 {
    pub fn from_u32_unchecked(a: u32, b: u32, c: u32, d: u32) -> (r: QM31)
        ensures
            r == QM31(CM31(M31(a), M31(b)), CM31(M31(c), M31(d))),
    {
        QM31(CM31(M31(a), M31(b)), CM31(M31(c), M31(d)))
    }

    /// The element with the given coordinates.
    pub fn from_m31(a: M31, b: M31, c: M31, d: M31) -> (r: QM31)
        ensures
            r == QM31(CM31(a, b), CM31(c, d)),
    {
        QM31(CM31(a, b), CM31(c, d))
    }

    pub fn from_m31_array(v: [M31; 4]) -> (r: QM31)
        ensures
            r == QM31(CM31(v@[0], v@[1]), CM31(v@[2], v@[3])),
    {
        QM31(CM31(v[0], v[1]), CM31(v[2], v[3]))
    }

    /// The coordinates.
    pub open spec fn coords(self) -> Seq<M31> {
        seq![self.0.0, self.0.1, self.1.0, self.1.1]
    }

    pub fn to_m31_array(self) -> (r: [M31; 4])
        ensures
            r@ == self.coords(),
    {
        let r: [M31; 4] = [self.0.0, self.0.1, self.1.0, self.1.1];
        assert(r@ =~= self.coords());
        r
    }

    /// The secure field element equal to a base field element.
    pub fn from_base(a: M31) -> (r: QM31)
        ensures
            r == embed(a),
    {
        QM31(CM31(a, M31(0)), CM31(M31(0), M31(0)))
    }

    /// The product with a base field element.
    pub open spec fn scaled(self, k: M31) -> QM31 {
        scaled_el(self, k)
    }

    pub fn mul_m31(self, k: M31) -> (r: QM31)
        ensures
            r == self.scaled(k),
    {
        proof {
            reveal(scaled_el);
        }
        QM31(self.0.mul_m31(k), self.1.mul_m31(k))
    }

    /// The product with an element of the complex extension.
    pub open spec fn scaled_cm31(self, k: CM31) -> QM31 {
        QM31(self.0.times(k), self.1.times(k))
    }

    pub fn mul_cm31(self, k: CM31) -> (r: QM31)
        ensures
            r == self.scaled_cm31(k),
    {
        QM31(self.0.mul(k), self.1.mul(k))
    }

    pub fn square(self) -> (r: QM31)
        ensures
            r == self.times(self),
    {
        self.mul(self)
    }

    /// `a - b * u` for `a + b * u`.
    pub open spec fn conjugated(self) -> QM31 {
        QM31(self.0, self.1.opposite())
    }

    pub fn complex_conjugate(self) -> (r: QM31)
        ensures
            r == self.conjugated(),
    {
        QM31(self.0, self.1.neg())
    }

    /// The canonical representative.
    pub fn canonical(self) -> (r: QM31)
        ensures
            r == self.canon(),
    {
        proof {
            reveal(canonical_el);
        }
        QM31(
            CM31(self.0.0.canonical(), self.0.1.canonical()),
            CM31(self.1.0.canonical(), self.1.1.canonical()),
        )
    }
}

/// `u^2` is not a square in the complex extension.
proof fn lemma_u_squared_not_square(z: CM31)
    ensures
        z.times(z) != u_squared(),
{
    let p = P as int;
    let x = z.0.0 as int;
    let y = z.1.0 as int;
    if z.times(z) == u_squared() {
        // x^2 - y^2 = 2 and 2 x y = 1, so (x^2 + y^2)^2 = 5.
        lemma_mod_bound(x * x, p);
        lemma_mod_bound(y * y, p);
        lemma_mod_bound(x * y, p);
        lemma_mod_bound(z.0.times(z.0).0 - z.1.times(z.1).0, p);
        lemma_mod_bound(z.0.times(z.1).0 + z.1.times(z.0).0, p);
        lemma_sub_mod_noop(x * x, y * y, p);
        lemma_add_mod_noop(x * y, x * y, p);
        vstd::arithmetic::mul::lemma_mul_is_commutative(x, y);
        let d = x * x - y * y;
        let e = x * y + x * y;
        assert(d % p == 2);
        assert(e % p == 1);
        let n = (x * x + y * y) % p;
        lemma_mod_bound(x * x + y * y, p);
        lemma_mul_mod_noop(x * x + y * y, x * x + y * y, p);
        lemma_mul_mod_noop(d, d, p);
        lemma_mul_mod_noop(e, e, p);
        let xx = x * x;
        let yy = y * y;
        let xy = x * y;
        assert(xx * yy == xy * xy) by (nonlinear_arith)
            requires
                xx == x * x,
                yy == y * y,
                xy == x * y,
        ;
        assert((xx + yy) * (xx + yy) == d * d + e * e) by (nonlinear_arith)
            requires
                d == xx - yy,
                e == xy + xy,
                xx * yy == xy * xy,
        ;
        lemma_add_mod_noop(d * d, e * e, p);
        assert((d * d + e * e) % p == 5);
        assert((n * n) % p == 5);
        lemma_sub_mod_noop(n * n, 5, p);
        lemma_five_not_square(n);
    }
}

/// The norm of a non-zero element is non-zero.
proof fn lemma_norm_nonzero(a: QM31)
    requires
        a.canon() != QM31::zero_el(),
    ensures
        quad_norm(u_squared(), a.0, a.1) != CM31::zero_el(),
{
    reveal(canonical_el);
    let r = u_squared();
    let aa = a.0.times(a.0);
    let bb = a.1.times(a.1);
    if quad_norm(r, a.0, a.1) == CM31::zero_el() {
        // a^2 = u^2 b^2
        CM31::law_sub(aa, r.times(bb));
        super::lemma_opposite_unique(aa, r.times(bb).opposite());
        CM31::law_canon_results(r, bb);
        CM31::law_canon_results(r.times(bb), r);
        CM31::law_canon_results(a.0, a.0);
        CM31::law_canon_results(aa, r);
        super::lemma_opposite_twice(r.times(bb));
        super::lemma_opposite_twice(aa);
        assert(r.times(bb) == aa);
        if a.1.canon() == CM31::zero_el() {
            CM31::law_canon_args(a.1, a.1);
            lemma_mul_zero(a.1);
            lemma_mul_zero(r);
            lemma_integral(a.0, a.0);
        } else {
            CM31::law_inverse(a.1);
            let w = choose|w: CM31| a.1.times(w) == CM31::one_el();
            let z = a.0.times(w);
            let ww = w.times(w);
            // z^2 = a^2 w^2 = u^2 (b w)^2 = u^2
            lemma_product_square(a.0, w);
            lemma_product_square(a.1, w);
            CM31::law_mul_assoc(r, bb, ww);
            CM31::law_mul_one(CM31::one_el());
            CM31::law_mul_one(r);
            assert(z.times(z) == r.canon());
            assert(r.canon() == r);
            lemma_u_squared_not_square(z);
        }
    }
}

/// `(a w)^2 = a^2 w^2`.
proof fn lemma_product_square(a: CM31, w: CM31)
    ensures
        a.times(w).times(a.times(w)) == a.times(a).times(w.times(w)),
{
    CM31::law_mul_assoc(a, w, a.times(w));
    lemma_mul_swap(w, a, w);
    CM31::law_mul_assoc(a, a, w.times(w));
}

impl Default for QM31 {
    fn default() -> (r: QM31)
        ensures
            r == QM31::zero_el(),
    {
        QM31(CM31(M31(0), M31(0)), CM31(M31(0), M31(0)))
    }
}

impl Field for QM31 {
    open spec fn zero_el() -> QM31 {
        QM31(CM31::zero_el(), CM31::zero_el())
    }

    open spec fn one_el() -> QM31 {
        QM31(CM31::one_el(), CM31::zero_el())
    }

    open spec fn plus(self, rhs: QM31) -> QM31 {
        sum_el(self, rhs)
    }

    open spec fn minus(self, rhs: QM31) -> QM31 {
        difference_el(self, rhs)
    }

    open spec fn times(self, rhs: QM31) -> QM31 {
        product_el(self, rhs)
    }

    open spec fn opposite(self) -> QM31 {
        negative_el(self)
    }

    open spec fn canon(self) -> QM31 {
        canonical_el(self)
    }

    proof fn law_add_comm(a: QM31, b: QM31) {
        reveal(sum_el);
        reveal(difference_el);
        reveal(product_el);
        reveal(negative_el);
        reveal(canonical_el);
        CM31::law_add_comm(a.0, b.0);
        CM31::law_add_comm(a.1, b.1);
    }

    proof fn law_add_assoc(a: QM31, b: QM31, c: QM31) {
        reveal(sum_el);
        reveal(difference_el);
        reveal(product_el);
        reveal(negative_el);
        reveal(canonical_el);
        CM31::law_add_assoc(a.0, b.0, c.0);
        CM31::law_add_assoc(a.1, b.1, c.1);
    }

    proof fn law_add_zero(a: QM31) {
        reveal(sum_el);
        reveal(difference_el);
        reveal(product_el);
        reveal(negative_el);
        reveal(canonical_el);
        CM31::law_add_zero(a.0);
        CM31::law_add_zero(a.1);
    }

    proof fn law_add_opposite(a: QM31) {
        reveal(sum_el);
        reveal(difference_el);
        reveal(product_el);
        reveal(negative_el);
        reveal(canonical_el);
        CM31::law_add_opposite(a.0);
        CM31::law_add_opposite(a.1);
    }

    proof fn law_sub(a: QM31, b: QM31) {
        reveal(sum_el);
        reveal(difference_el);
        reveal(product_el);
        reveal(negative_el);
        reveal(canonical_el);
        CM31::law_sub(a.0, b.0);
        CM31::law_sub(a.1, b.1);
    }

    proof fn law_mul_comm(a: QM31, b: QM31) {
        reveal(sum_el);
        reveal(difference_el);
        reveal(product_el);
        reveal(negative_el);
        reveal(canonical_el);
        lemma_quad_comm(u_squared(), a.0, a.1, b.0, b.1);
    }

    proof fn law_mul_assoc(a: QM31, b: QM31, c: QM31) {
        reveal(sum_el);
        reveal(difference_el);
        reveal(product_el);
        reveal(negative_el);
        reveal(canonical_el);
        lemma_quad_assoc(u_squared(), a.0, a.1, b.0, b.1, c.0, c.1);
    }

    proof fn law_mul_one(a: QM31) {
        reveal(sum_el);
        reveal(difference_el);
        reveal(product_el);
        reveal(negative_el);
        reveal(canonical_el);
        lemma_quad_one(u_squared(), a.0, a.1);
    }

    proof fn law_distrib(a: QM31, b: QM31, c: QM31) {
        reveal(sum_el);
        reveal(difference_el);
        reveal(product_el);
        reveal(negative_el);
        reveal(canonical_el);
        lemma_quad_distrib(u_squared(), a.0, a.1, b.0, b.1, c.0, c.1);
    }

    proof fn law_canon_args(a: QM31, b: QM31) {
        reveal(sum_el);
        reveal(difference_el);
        reveal(product_el);
        reveal(negative_el);
        reveal(canonical_el);
        CM31::law_canon_args(a.0, b.0);
        CM31::law_canon_args(a.1, b.1);
        lemma_quad_canon(u_squared(), a.0, a.1, b.0, b.1);
    }

    proof fn law_canon_results(a: QM31, b: QM31) {
        reveal(sum_el);
        reveal(difference_el);
        reveal(product_el);
        reveal(negative_el);
        reveal(canonical_el);
        CM31::law_canon_results(a.0, b.0);
        CM31::law_canon_results(a.1, b.1);
        CM31::law_canon_results(a.0.times(b.0), u_squared().times(a.1.times(b.1)));
        CM31::law_canon_results(a.0.times(b.1), a.1.times(b.0));
    }

    proof fn law_nontrivial() {
        reveal(sum_el);
        reveal(difference_el);
        reveal(product_el);
        reveal(negative_el);
        reveal(canonical_el);
    }

    proof fn law_inverse(a: QM31) {
        reveal(sum_el);
        reveal(difference_el);
        reveal(product_el);
        reveal(negative_el);
        reveal(canonical_el);
        lemma_norm_nonzero(a);
        let n = quad_norm(u_squared(), a.0, a.1);
        CM31::law_canon_results(a.0.times(a.0), u_squared().times(a.1.times(a.1)));
        CM31::law_inverse(n);
        let w = choose|w: CM31| n.times(w) == CM31::one_el();
        lemma_quad_inverse(u_squared(), a.0, a.1, w);
        let y = QM31(a.0.times(w), a.1.opposite().times(w));
        assert(a.times(y) == QM31::one_el());
    }

    fn zero() -> (r: QM31) {
        QM31(CM31(M31(0), M31(0)), CM31(M31(0), M31(0)))
    }

    fn one() -> (r: QM31) {
        QM31(CM31(M31(1), M31(0)), CM31(M31(0), M31(0)))
    }

    fn add(self, rhs: QM31) -> (r: QM31) {
        proof {
            reveal(sum_el);
        }
        QM31(self.0.add(rhs.0), self.1.add(rhs.1))
    }

    fn sub(self, rhs: QM31) -> (r: QM31) {
        proof {
            reveal(difference_el);
        }
        QM31(self.0.sub(rhs.0), self.1.sub(rhs.1))
    }

    fn mul(self, rhs: QM31) -> (r: QM31) {
        proof {
            reveal(product_el);
        }
        let u2 = CM31(M31(2), M31(1));
        QM31(
            self.0.mul(rhs.0).add(u2.mul(self.1.mul(rhs.1))),
            self.0.mul(rhs.1).add(self.1.mul(rhs.0)),
        )
    }

    fn neg(self) -> (r: QM31) {
        proof {
            reveal(negative_el);
        }
        QM31(self.0.neg(), self.1.neg())
    }

    fn is_zero(self) -> (r: bool) {
        proof {
            reveal(canonical_el);
        }
        self.0.is_zero() && self.1.is_zero()
    }

    /// `1 / (a + bu) = (a - bu) / (a^2 - (2 + i) b^2)`.
    fn inverse(self) -> (r: QM31) {
        proof {
            reveal(product_el);
            reveal(canonical_el);
        }
        let u2 = CM31(M31(2), M31(1));
        let norm = self.0.mul(self.0).sub(u2.mul(self.1.mul(self.1)));
        proof {
            lemma_norm_nonzero(self);
            CM31::law_canon_results(self.0.times(self.0), u_squared().times(self.1.times(self.1)));
        }
        let n = norm.inverse();
        let r = QM31(self.0.mul(n), self.1.neg().mul(n));
        proof {
            lemma_quad_inverse(u_squared(), self.0, self.1, n);
            CM31::law_canon_results(self.0, n);
            CM31::law_canon_results(self.1.opposite(), n);
        }
        r
    }
}

} // verus!
