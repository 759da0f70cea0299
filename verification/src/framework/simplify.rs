//! Simpler expressions of the same value.

use vstd::prelude::*;

use crate::fields::m31::M31;
use crate::fields::qm31::QM31;
use crate::fields::{
    inv_of, lemma_canon_both, lemma_inv_exists, lemma_inv_of, lemma_invertible_nonzero,
    lemma_mul_opposite, lemma_mul_zero, lemma_opposite_sum, lemma_opposite_twice, Field,
};
use crate::framework::expr::{from_coords, BaseExpr, ExtExpr, Values};

verus! {

impl BaseExpr {
    pub open spec fn is_zero_const_s(self) -> bool {
        self is Const && self->Const_0.canon() == M31::zero_el()
    }

    pub open spec fn is_one_const_s(self) -> bool {
        self is Const && self->Const_0.canon() == M31::one_el()
    }

    fn is_zero_const(&self) -> (r: bool)
        ensures
            r == self.is_zero_const_s(),
    {
        match self {
            BaseExpr::Const(c) => c.is_zero(),
            _ => false,
        }
    }

    fn is_one_const(&self) -> (r: bool)
        ensures
            r == self.is_one_const_s(),
    {
        match self {
            BaseExpr::Const(c) => c.canonical() == M31::one(),
            _ => false,
        }
    }

    /// A simple sum of two simple expressions.
    pub open spec fn sum_s(a: BaseExpr, b: BaseExpr) -> BaseExpr {
        match (a, b) {
            (BaseExpr::Const(x), BaseExpr::Const(y)) => BaseExpr::Const(x.plus(y)),
            (_, _) => if a.is_zero_const_s() {
                b
            } else if b.is_zero_const_s() {
                a
            } else {
                match (a, b) {
                    (BaseExpr::Neg(x), BaseExpr::Neg(y)) => BaseExpr::Neg(
                        Box::new(BaseExpr::Add(x, y)),
                    ),
                    (_, BaseExpr::Neg(y)) => BaseExpr::Sub(Box::new(a), y),
                    (BaseExpr::Neg(x), _) => BaseExpr::Sub(Box::new(b), x),
                    (_, _) => BaseExpr::Add(Box::new(a), Box::new(b)),
                }
            },
        }
    }

    /// A simple difference of two simple expressions.
    pub open spec fn difference_s(a: BaseExpr, b: BaseExpr) -> BaseExpr {
        match (a, b) {
            (BaseExpr::Const(x), BaseExpr::Const(y)) => BaseExpr::Const(x.minus(y)),
            (_, _) => if b.is_zero_const_s() {
                a
            } else if a.is_zero_const_s() {
                BaseExpr::Neg(Box::new(b))
            } else {
                match (a, b) {
                    (BaseExpr::Neg(x), BaseExpr::Neg(y)) => BaseExpr::Sub(y, x),
                    (_, BaseExpr::Neg(y)) => BaseExpr::Add(Box::new(a), y),
                    (BaseExpr::Neg(x), _) => BaseExpr::Neg(
                        Box::new(BaseExpr::Add(x, Box::new(b))),
                    ),
                    (_, _) => BaseExpr::Sub(Box::new(a), Box::new(b)),
                }
            },
        }
    }

    /// A simple product of two simple expressions.
    pub open spec fn product_s(a: BaseExpr, b: BaseExpr) -> BaseExpr {
        match (a, b) {
            (BaseExpr::Const(x), BaseExpr::Const(y)) => BaseExpr::Const(x.times(y)),
            (_, _) => if a.is_zero_const_s() || b.is_zero_const_s() {
                BaseExpr::Const(M31(0))
            } else if a.is_one_const_s() {
                b
            } else if b.is_one_const_s() {
                a
            } else {
                match (a, b) {
                    (BaseExpr::Neg(x), BaseExpr::Neg(y)) => BaseExpr::Mul(x, y),
                    (_, BaseExpr::Neg(y)) => BaseExpr::Neg(
                        Box::new(BaseExpr::Mul(Box::new(a), y)),
                    ),
                    (BaseExpr::Neg(x), _) => BaseExpr::Neg(
                        Box::new(BaseExpr::Mul(x, Box::new(b))),
                    ),
                    (_, _) => BaseExpr::Mul(Box::new(a), Box::new(b)),
                }
            },
        }
    }

    /// A simple opposite of a simple expression.
    pub open spec fn negation_s(a: BaseExpr) -> BaseExpr {
        match a {
            BaseExpr::Const(x) => BaseExpr::Const(x.opposite()),
            BaseExpr::Neg(x) => *x,
            BaseExpr::Sub(x, y) => BaseExpr::Sub(y, x),
            _ => BaseExpr::Neg(Box::new(a)),
        }
    }

    /// A simple inverse of a simple expression. The inverse of the constant zero is left alone.
    pub open spec fn inverse_s(a: BaseExpr) -> BaseExpr {
        match a {
            BaseExpr::Inv(x) => *x,
            BaseExpr::Const(x) => if a.is_zero_const_s() {
                BaseExpr::Inv(Box::new(a))
            } else {
                BaseExpr::Const(inv_of(x))
            },
            _ => BaseExpr::Inv(Box::new(a)),
        }
    }

    /// The expression with constants folded, neutral elements dropped and signs pulled out.
    pub open spec fn simplified(self) -> BaseExpr
        decreases self,
    {
        match self {
            BaseExpr::Add(a, b) => BaseExpr::sum_s(a.simplified(), b.simplified()),
            BaseExpr::Sub(a, b) => BaseExpr::difference_s(a.simplified(), b.simplified()),
            BaseExpr::Mul(a, b) => BaseExpr::product_s(a.simplified(), b.simplified()),
            BaseExpr::Neg(a) => BaseExpr::negation_s(a.simplified()),
            BaseExpr::Inv(a) => BaseExpr::inverse_s(a.simplified()),
            _ => self,
        }
    }

    fn simple_sum(a: BaseExpr, b: BaseExpr) -> (r: BaseExpr)
        ensures
            r == BaseExpr::sum_s(a, b),
    {
        let zero_a = a.is_zero_const();
        let zero_b = b.is_zero_const();
        match (a, b) {
            (BaseExpr::Const(x), BaseExpr::Const(y)) => BaseExpr::Const(x.add(y)),
            (a, b) => if zero_a {
                b
            } else if zero_b {
                a
            } else {
                match (a, b) {
                    (BaseExpr::Neg(x), BaseExpr::Neg(y)) => BaseExpr::Neg(
                        Box::new(BaseExpr::Add(x, y)),
                    ),
                    (a, BaseExpr::Neg(y)) => BaseExpr::Sub(Box::new(a), y),
                    (BaseExpr::Neg(x), b) => BaseExpr::Sub(Box::new(b), x),
                    (a, b) => BaseExpr::Add(Box::new(a), Box::new(b)),
                }
            },
        }
    }

    fn simple_difference(a: BaseExpr, b: BaseExpr) -> (r: BaseExpr)
        ensures
            r == BaseExpr::difference_s(a, b),
    {
        let zero_a = a.is_zero_const();
        let zero_b = b.is_zero_const();
        match (a, b) {
            (BaseExpr::Const(x), BaseExpr::Const(y)) => BaseExpr::Const(x.sub(y)),
            (a, b) => if zero_b {
                a
            } else if zero_a {
                BaseExpr::Neg(Box::new(b))
            } else {
                match (a, b) {
                    (BaseExpr::Neg(x), BaseExpr::Neg(y)) => BaseExpr::Sub(y, x),
                    (a, BaseExpr::Neg(y)) => BaseExpr::Add(Box::new(a), y),
                    (BaseExpr::Neg(x), b) => BaseExpr::Neg(
                        Box::new(BaseExpr::Add(x, Box::new(b))),
                    ),
                    (a, b) => BaseExpr::Sub(Box::new(a), Box::new(b)),
                }
            },
        }
    }

    fn simple_product(a: BaseExpr, b: BaseExpr) -> (r: BaseExpr)
        ensures
            r == BaseExpr::product_s(a, b),
    {
        let zero_a = a.is_zero_const();
        let zero_b = b.is_zero_const();
        let one_a = a.is_one_const();
        let one_b = b.is_one_const();
        match (a, b) {
            (BaseExpr::Const(x), BaseExpr::Const(y)) => BaseExpr::Const(x.mul(y)),
            (a, b) => if zero_a || zero_b {
                BaseExpr::zero()
            } else if one_a {
                b
            } else if one_b {
                a
            } else {
                match (a, b) {
                    (BaseExpr::Neg(x), BaseExpr::Neg(y)) => BaseExpr::Mul(x, y),
                    (a, BaseExpr::Neg(y)) => BaseExpr::Neg(
                        Box::new(BaseExpr::Mul(Box::new(a), y)),
                    ),
                    (BaseExpr::Neg(x), b) => BaseExpr::Neg(
                        Box::new(BaseExpr::Mul(x, Box::new(b))),
                    ),
                    (a, b) => BaseExpr::Mul(Box::new(a), Box::new(b)),
                }
            },
        }
    }

    fn simple_negation(a: BaseExpr) -> (r: BaseExpr)
        ensures
            r == BaseExpr::negation_s(a),
    {
        match a {
            BaseExpr::Const(x) => BaseExpr::Const(x.neg()),
            BaseExpr::Neg(x) => *x,
            BaseExpr::Sub(x, y) => BaseExpr::Sub(y, x),
            a => BaseExpr::Neg(Box::new(a)),
        }
    }

    fn simple_inverse(a: BaseExpr) -> (r: BaseExpr)
        ensures
            r == BaseExpr::inverse_s(a),
    {
        match a {
            BaseExpr::Inv(x) => *x,
            BaseExpr::Const(x) => if x.is_zero() {
                BaseExpr::Inv(Box::new(BaseExpr::Const(x)))
            } else {
                let y = x.inverse();
                proof {
                    lemma_inv_of(x, y);
                }
                BaseExpr::Const(y)
            },
            a => BaseExpr::Inv(Box::new(a)),
        }
    }

    /// A simpler expression of the same value.
    pub fn simplify(&self) -> (r: BaseExpr)
        ensures
            r == self.simplified(),
        decreases self,
    {
        match self {
            BaseExpr::Add(a, b) => BaseExpr::simple_sum(a.simplify(), b.simplify()),
            BaseExpr::Sub(a, b) => BaseExpr::simple_difference(a.simplify(), b.simplify()),
            BaseExpr::Mul(a, b) => BaseExpr::simple_product(a.simplify(), b.simplify()),
            BaseExpr::Neg(a) => BaseExpr::simple_negation(a.simplify()),
            BaseExpr::Inv(a) => BaseExpr::simple_inverse(a.simplify()),
            _ => self.duplicate(),
        }
    }
}

impl ExtExpr {
    pub open spec fn is_zero_const_s(self) -> bool {
        self is Const && self->Const_0.canon() == QM31::zero_el()
    }

    pub open spec fn is_one_const_s(self) -> bool {
        self is Const && self->Const_0.canon() == QM31::one_el()
    }

    fn is_zero_const(&self) -> (r: bool)
        ensures
            r == self.is_zero_const_s(),
    {
        match self {
            ExtExpr::Const(c) => c.is_zero(),
            _ => false,
        }
    }

    fn is_one_const(&self) -> (r: bool)
        ensures
            r == self.is_one_const_s(),
    {
        match self {
            ExtExpr::Const(c) => c.canonical() == QM31::one(),
            _ => false,
        }
    }

    /// A simple sum of two simple expressions.
    pub open spec fn sum_s(a: ExtExpr, b: ExtExpr) -> ExtExpr {
        match (a, b) {
            (ExtExpr::Const(x), ExtExpr::Const(y)) => ExtExpr::Const(x.plus(y)),
            (_, _) => if a.is_zero_const_s() {
                b
            } else if b.is_zero_const_s() {
                a
            } else {
                match (a, b) {
                    (ExtExpr::Neg(x), ExtExpr::Neg(y)) => ExtExpr::Neg(
                        Box::new(ExtExpr::Add(x, y)),
                    ),
                    (_, ExtExpr::Neg(y)) => ExtExpr::Sub(Box::new(a), y),
                    (ExtExpr::Neg(x), _) => ExtExpr::Sub(Box::new(b), x),
                    (_, _) => ExtExpr::Add(Box::new(a), Box::new(b)),
                }
            },
        }
    }

    /// A simple difference of two simple expressions.
    pub open spec fn difference_s(a: ExtExpr, b: ExtExpr) -> ExtExpr {
        match (a, b) {
            (ExtExpr::Const(x), ExtExpr::Const(y)) => ExtExpr::Const(x.minus(y)),
            (_, _) => if b.is_zero_const_s() {
                a
            } else if a.is_zero_const_s() {
                ExtExpr::Neg(Box::new(b))
            } else {
                match (a, b) {
                    (ExtExpr::Neg(x), ExtExpr::Neg(y)) => ExtExpr::Sub(y, x),
                    (_, ExtExpr::Neg(y)) => ExtExpr::Add(Box::new(a), y),
                    (ExtExpr::Neg(x), _) => ExtExpr::Neg(Box::new(ExtExpr::Add(x, Box::new(b)))),
                    (_, _) => ExtExpr::Sub(Box::new(a), Box::new(b)),
                }
            },
        }
    }

    /// A simple product of two simple expressions.
    pub open spec fn product_s(a: ExtExpr, b: ExtExpr) -> ExtExpr {
        match (a, b) {
            (ExtExpr::Const(x), ExtExpr::Const(y)) => ExtExpr::Const(x.times(y)),
            (_, _) => if a.is_zero_const_s() || b.is_zero_const_s() {
                ExtExpr::Const(QM31::zero_el())
            } else if a.is_one_const_s() {
                b
            } else if b.is_one_const_s() {
                a
            } else {
                match (a, b) {
                    (ExtExpr::Neg(x), ExtExpr::Neg(y)) => ExtExpr::Mul(x, y),
                    (_, ExtExpr::Neg(y)) => ExtExpr::Neg(Box::new(ExtExpr::Mul(Box::new(a), y))),
                    (ExtExpr::Neg(x), _) => ExtExpr::Neg(Box::new(ExtExpr::Mul(x, Box::new(b)))),
                    (_, _) => ExtExpr::Mul(Box::new(a), Box::new(b)),
                }
            },
        }
    }

    /// A simple opposite of a simple expression.
    pub open spec fn negation_s(a: ExtExpr) -> ExtExpr {
        match a {
            ExtExpr::Const(x) => ExtExpr::Const(x.opposite()),
            ExtExpr::Neg(x) => *x,
            ExtExpr::Sub(x, y) => ExtExpr::Sub(y, x),
            _ => ExtExpr::Neg(Box::new(a)),
        }
    }

    /// The element of four simple coordinates: a constant where all of them are.
    pub open spec fn secure_s(a: BaseExpr, b: BaseExpr, c: BaseExpr, d: BaseExpr) -> ExtExpr {
        match (a, b, c, d) {
            (
                BaseExpr::Const(x),
                BaseExpr::Const(y),
                BaseExpr::Const(z),
                BaseExpr::Const(w),
            ) => ExtExpr::Const(from_coords(x, y, z, w)),
            (_, _, _, _) => ExtExpr::SecureCol(
                Box::new(a),
                Box::new(b),
                Box::new(c),
                Box::new(d),
            ),
        }
    }

    /// The expression with constants folded, neutral elements dropped and signs pulled out.
    pub open spec fn simplified(self) -> ExtExpr
        decreases self,
    {
        match self {
            ExtExpr::SecureCol(a, b, c, d) => ExtExpr::secure_s(
                a.simplified(),
                b.simplified(),
                c.simplified(),
                d.simplified(),
            ),
            ExtExpr::Add(a, b) => ExtExpr::sum_s(a.simplified(), b.simplified()),
            ExtExpr::Sub(a, b) => ExtExpr::difference_s(a.simplified(), b.simplified()),
            ExtExpr::Mul(a, b) => ExtExpr::product_s(a.simplified(), b.simplified()),
            ExtExpr::Neg(a) => ExtExpr::negation_s(a.simplified()),
            _ => self,
        }
    }

    fn simple_sum(a: ExtExpr, b: ExtExpr) -> (r: ExtExpr)
        ensures
            r == ExtExpr::sum_s(a, b),
    {
        let zero_a = a.is_zero_const();
        let zero_b = b.is_zero_const();
        match (a, b) {
            (ExtExpr::Const(x), ExtExpr::Const(y)) => ExtExpr::Const(x.add(y)),
            (a, b) => if zero_a {
                b
            } else if zero_b {
                a
            } else {
                match (a, b) {
                    (ExtExpr::Neg(x), ExtExpr::Neg(y)) => ExtExpr::Neg(
                        Box::new(ExtExpr::Add(x, y)),
                    ),
                    (a, ExtExpr::Neg(y)) => ExtExpr::Sub(Box::new(a), y),
                    (ExtExpr::Neg(x), b) => ExtExpr::Sub(Box::new(b), x),
                    (a, b) => ExtExpr::Add(Box::new(a), Box::new(b)),
                }
            },
        }
    }

    fn simple_difference(a: ExtExpr, b: ExtExpr) -> (r: ExtExpr)
        ensures
            r == ExtExpr::difference_s(a, b),
    {
        let zero_a = a.is_zero_const();
        let zero_b = b.is_zero_const();
        match (a, b) {
            (ExtExpr::Const(x), ExtExpr::Const(y)) => ExtExpr::Const(x.sub(y)),
            (a, b) => if zero_b {
                a
            } else if zero_a {
                ExtExpr::Neg(Box::new(b))
            } else {
                match (a, b) {
                    (ExtExpr::Neg(x), ExtExpr::Neg(y)) => ExtExpr::Sub(y, x),
                    (a, ExtExpr::Neg(y)) => ExtExpr::Add(Box::new(a), y),
                    (ExtExpr::Neg(x), b) => ExtExpr::Neg(Box::new(ExtExpr::Add(x, Box::new(b)))),
                    (a, b) => ExtExpr::Sub(Box::new(a), Box::new(b)),
                }
            },
        }
    }

    fn simple_product(a: ExtExpr, b: ExtExpr) -> (r: ExtExpr)
        ensures
            r == ExtExpr::product_s(a, b),
    {
        let zero_a = a.is_zero_const();
        let zero_b = b.is_zero_const();
        let one_a = a.is_one_const();
        let one_b = b.is_one_const();
        match (a, b) {
            (ExtExpr::Const(x), ExtExpr::Const(y)) => ExtExpr::Const(x.mul(y)),
            (a, b) => if zero_a || zero_b {
                ExtExpr::zero()
            } else if one_a {
                b
            } else if one_b {
                a
            } else {
                match (a, b) {
                    (ExtExpr::Neg(x), ExtExpr::Neg(y)) => ExtExpr::Mul(x, y),
                    (a, ExtExpr::Neg(y)) => ExtExpr::Neg(Box::new(ExtExpr::Mul(Box::new(a), y))),
                    (ExtExpr::Neg(x), b) => ExtExpr::Neg(Box::new(ExtExpr::Mul(x, Box::new(b)))),
                    (a, b) => ExtExpr::Mul(Box::new(a), Box::new(b)),
                }
            },
        }
    }

    fn simple_negation(a: ExtExpr) -> (r: ExtExpr)
        ensures
            r == ExtExpr::negation_s(a),
    {
        match a {
            ExtExpr::Const(x) => ExtExpr::Const(x.neg()),
            ExtExpr::Neg(x) => *x,
            ExtExpr::Sub(x, y) => ExtExpr::Sub(y, x),
            a => ExtExpr::Neg(Box::new(a)),
        }
    }

    fn simple_secure(a: BaseExpr, b: BaseExpr, c: BaseExpr, d: BaseExpr) -> (r: ExtExpr)
        ensures
            r == ExtExpr::secure_s(a, b, c, d),
    {
        match (a, b, c, d) {
            (
                BaseExpr::Const(x),
                BaseExpr::Const(y),
                BaseExpr::Const(z),
                BaseExpr::Const(w),
            ) => ExtExpr::Const(QM31::from_m31(x, y, z, w)),
            (a, b, c, d) => ExtExpr::SecureCol(
                Box::new(a),
                Box::new(b),
                Box::new(c),
                Box::new(d),
            ),
        }
    }

    /// A simpler expression of the same value.
    pub fn simplify(&self) -> (r: ExtExpr)
        ensures
            r == self.simplified(),
        decreases self,
    {
        match self {
            ExtExpr::SecureCol(a, b, c, d) => ExtExpr::simple_secure(
                a.simplify(),
                b.simplify(),
                c.simplify(),
                d.simplify(),
            ),
            ExtExpr::Add(a, b) => ExtExpr::simple_sum(a.simplify(), b.simplify()),
            ExtExpr::Sub(a, b) => ExtExpr::simple_difference(a.simplify(), b.simplify()),
            ExtExpr::Mul(a, b) => ExtExpr::simple_product(a.simplify(), b.simplify()),
            ExtExpr::Neg(a) => ExtExpr::simple_negation(a.simplify()),
            _ => self.duplicate(),
        }
    }
}

/// Zero is neutral, and absorbs.
proof fn lemma_with_zero<F: Field>(z: F, a: F)
    requires
        z.canon() == F::zero_el(),
    ensures
        z.plus(a) == a.canon(),
        a.plus(z) == a.canon(),
        a.minus(z) == a.canon(),
        z.minus(a) == a.opposite(),
        z.times(a) == F::zero_el(),
        a.times(z) == F::zero_el(),
{
    let zero = F::zero_el();
    lemma_canon_both(a, z);
    lemma_canon_both(z, a);
    lemma_canon_both(a, zero);
    lemma_canon_both(zero, a);
    F::law_canon_results(a, a);
    F::law_add_zero(a);
    F::law_add_comm(a, zero);
    lemma_mul_zero(a);
    F::law_sub(z, a);
    F::law_canon_args(z, a.opposite());
    F::law_add_comm(zero, a.opposite());
    F::law_add_zero(a.opposite());
    F::law_sub(a, zero);
    F::law_sub(a, z);
    F::law_canon_args(z, z);
    F::law_add_opposite(zero);
    F::law_add_comm(zero, zero.opposite());
    F::law_add_zero(zero.opposite());
    F::law_canon_results(zero, zero);
}

/// One is neutral.
proof fn lemma_with_one<F: Field>(o: F, a: F)
    requires
        o.canon() == F::one_el(),
    ensures
        o.times(a) == a.canon(),
        a.times(o) == a.canon(),
{
    F::law_canon_args(o, a);
    F::law_mul_comm(o, a);
    F::law_mul_comm(F::one_el(), a);
    F::law_mul_one(a);
}

/// How signs move through the operations.
proof fn lemma_signs<F: Field>(x: F, y: F)
    ensures
        x.opposite().plus(y.opposite()) == x.plus(y).opposite(),
        x.plus(y.opposite()) == x.minus(y),
        x.opposite().plus(y) == y.minus(x),
        x.opposite().minus(y.opposite()) == y.minus(x),
        x.minus(y.opposite()) == x.plus(y),
        x.opposite().minus(y) == x.plus(y).opposite(),
        x.opposite().times(y.opposite()) == x.times(y),
        x.times(y.opposite()) == x.times(y).opposite(),
        x.opposite().times(y) == x.times(y).opposite(),
        x.minus(y).opposite() == y.minus(x),
        x.opposite().opposite() == x.canon(),
{
    lemma_opposite_sum(x, y);
    F::law_sub(x, y);
    F::law_sub(y, x);
    F::law_add_comm(x.opposite(), y);
    F::law_sub(x.opposite(), y.opposite());
    lemma_opposite_twice(x);
    lemma_opposite_twice(y);
    F::law_canon_args(y, x.opposite());
    F::law_add_comm(y.canon(), x.opposite());
    F::law_add_comm(y, x.opposite());
    F::law_sub(x, y.opposite());
    F::law_canon_args(y, x);
    F::law_add_comm(x, y.canon());
    F::law_add_comm(x, y);
    F::law_sub(x.opposite(), y);
    lemma_mul_opposite(x, y.opposite());
    lemma_mul_opposite(x, y);
    lemma_opposite_twice(x.times(y));
    F::law_canon_results(x, y);
    lemma_opposite_sum(x, y.opposite());
}

/// The inverse sees only the element, and inverting twice gives it back.
proof fn lemma_inverses<F: Field>(a: F)
    requires
        a.canon() != F::zero_el(),
    ensures
        inv_of(a.canon()) == inv_of(a),
        inv_of(inv_of(a)) == a.canon(),
        inv_of(a).canon() == inv_of(a),
        inv_of(a).canon() != F::zero_el(),
{
    lemma_inv_exists(a);
    let y = inv_of(a);
    F::law_canon_args(a, y);
    lemma_inv_of(a.canon(), y);
    F::law_mul_comm(a.canon(), y);
    F::law_canon_results(a, a);
    lemma_inv_of(y, a.canon());
    lemma_invertible_nonzero(a, y);
}

proof fn lemma_base_sum(a: BaseExpr, b: BaseExpr, v: Values)
    requires
        a.invertible(v),
        b.invertible(v),
    ensures
        BaseExpr::sum_s(a, b).invertible(v),
        BaseExpr::sum_s(a, b).value_s(v).canon() == a.value_s(v).plus(b.value_s(v)),
{
    reveal_with_fuel(BaseExpr::value_s, 3);
    reveal_with_fuel(BaseExpr::invertible, 3);
    let (x, y) = (a.value_s(v), b.value_s(v));
    let r = BaseExpr::sum_s(a, b);
    M31::law_canon_results(x, y);
    M31::law_canon_results(y, y);
    if a is Const && b is Const {
    } else if a.is_zero_const_s() {
        lemma_with_zero(x, y);
    } else if b.is_zero_const_s() {
        lemma_with_zero(y, x);
    } else if a is Neg && b is Neg {
        let (p, q) = (a->Neg_0.value_s(v), b->Neg_0.value_s(v));
        lemma_signs(p, q);
        M31::law_canon_results(p, q);
        M31::law_canon_results(q, p);
        M31::law_canon_results(p.plus(q), p);
    } else if b is Neg {
        let q = b->Neg_0.value_s(v);
        lemma_signs(x, q);
        M31::law_canon_results(x, q);
        M31::law_canon_results(x.minus(q), q);
    } else if a is Neg {
        let p = a->Neg_0.value_s(v);
        lemma_signs(p, y);
        M31::law_canon_results(y, p);
        M31::law_canon_results(y.minus(p), y);
    }
}

proof fn lemma_base_difference(a: BaseExpr, b: BaseExpr, v: Values)
    requires
        a.invertible(v),
        b.invertible(v),
    ensures
        BaseExpr::difference_s(a, b).invertible(v),
        BaseExpr::difference_s(a, b).value_s(v).canon() == a.value_s(v).minus(b.value_s(v)),
{
    reveal_with_fuel(BaseExpr::value_s, 3);
    reveal_with_fuel(BaseExpr::invertible, 3);
    let (x, y) = (a.value_s(v), b.value_s(v));
    let r = BaseExpr::difference_s(a, b);
    M31::law_canon_results(x, y);
    M31::law_canon_results(y, y);
    if a is Const && b is Const {
    } else if a.is_zero_const_s() {
        lemma_with_zero(x, y);
    } else if b.is_zero_const_s() {
        lemma_with_zero(y, x);
    } else if a is Neg && b is Neg {
        let (p, q) = (a->Neg_0.value_s(v), b->Neg_0.value_s(v));
        lemma_signs(p, q);
        M31::law_canon_results(p, q);
        M31::law_canon_results(q, p);
        M31::law_canon_results(q.minus(p), p);
    } else if b is Neg {
        let q = b->Neg_0.value_s(v);
        lemma_signs(x, q);
        M31::law_canon_results(x, q);
        M31::law_canon_results(x.plus(q), q);
    } else if a is Neg {
        let p = a->Neg_0.value_s(v);
        lemma_signs(p, y);
        M31::law_canon_results(y, p);
        M31::law_canon_results(p.plus(y), y);
    }
}

proof fn lemma_base_product(a: BaseExpr, b: BaseExpr, v: Values)
    requires
        a.invertible(v),
        b.invertible(v),
    ensures
        BaseExpr::product_s(a, b).invertible(v),
        BaseExpr::product_s(a, b).value_s(v).canon() == a.value_s(v).times(b.value_s(v)),
{
    reveal_with_fuel(BaseExpr::value_s, 3);
    reveal_with_fuel(BaseExpr::invertible, 3);
    let (x, y) = (a.value_s(v), b.value_s(v));
    let r = BaseExpr::product_s(a, b);
    M31::law_canon_results(x, y);
    M31::law_canon_results(y, y);
    if a is Const && b is Const {
    } else if a.is_zero_const_s() {
        lemma_with_zero(x, y);
    } else if b.is_zero_const_s() {
        lemma_with_zero(y, x);
    } else if a.is_one_const_s() {
        lemma_with_one(x, y);
    } else if b.is_one_const_s() {
        lemma_with_one(y, x);
    } else if a is Neg && b is Neg {
        let (p, q) = (a->Neg_0.value_s(v), b->Neg_0.value_s(v));
        lemma_signs(p, q);
        M31::law_canon_results(p, q);
        M31::law_canon_results(q, p);
        M31::law_canon_results(p.times(q), p);
    } else if b is Neg {
        let q = b->Neg_0.value_s(v);
        lemma_signs(x, q);
        M31::law_canon_results(x, q);
        M31::law_canon_results(x.times(q), q);
    } else if a is Neg {
        let p = a->Neg_0.value_s(v);
        lemma_signs(p, y);
        M31::law_canon_results(y, p);
        M31::law_canon_results(p.times(y), y);
    }
}

proof fn lemma_base_unary(a: BaseExpr, v: Values)
    requires
        a.invertible(v),
    ensures
        BaseExpr::negation_s(a).invertible(v),
        BaseExpr::negation_s(a).value_s(v).canon() == a.value_s(v).opposite(),
        a.value_s(v).canon() != M31::zero_el() ==> BaseExpr::inverse_s(a).invertible(v)
            && BaseExpr::inverse_s(a).value_s(v).canon() == inv_of(a.value_s(v)),
{
    let x = a.value_s(v);
    M31::law_canon_results(x, x);
    match a {
        BaseExpr::Neg(p) => {
            lemma_signs(p.value_s(v), x);
        },
        BaseExpr::Sub(p, q) => {
            lemma_signs(p.value_s(v), q.value_s(v));
            M31::law_canon_results(q.value_s(v), p.value_s(v));
        },
        _ => {},
    }
    if x.canon() != M31::zero_el() {
        lemma_inverses(x);
        if let BaseExpr::Inv(p) = a {
            lemma_inverses(p.value_s(v));
        }
    }
}

/// Simplifying a base expression keeps its value.
pub proof fn lemma_base_simplified(e: BaseExpr, v: Values)
    requires
        e.invertible(v),
    ensures
        e.simplified().invertible(v),
        e.simplified().value_s(v).canon() == e.value_s(v).canon(),
    decreases e,
{
    match e {
        BaseExpr::Add(a, b) => {
            lemma_base_simplified(*a, v);
            lemma_base_simplified(*b, v);
            lemma_base_sum(a.simplified(), b.simplified(), v);
            lemma_canon_both(a.value_s(v), b.value_s(v));
            lemma_canon_both(a.simplified().value_s(v), b.simplified().value_s(v));
            M31::law_canon_results(a.value_s(v), b.value_s(v));
        },
        BaseExpr::Sub(a, b) => {
            lemma_base_simplified(*a, v);
            lemma_base_simplified(*b, v);
            lemma_base_difference(a.simplified(), b.simplified(), v);
            lemma_canon_both(a.value_s(v), b.value_s(v));
            lemma_canon_both(a.simplified().value_s(v), b.simplified().value_s(v));
            M31::law_canon_results(a.value_s(v), b.value_s(v));
        },
        BaseExpr::Mul(a, b) => {
            lemma_base_simplified(*a, v);
            lemma_base_simplified(*b, v);
            lemma_base_product(a.simplified(), b.simplified(), v);
            lemma_canon_both(a.value_s(v), b.value_s(v));
            lemma_canon_both(a.simplified().value_s(v), b.simplified().value_s(v));
            M31::law_canon_results(a.value_s(v), b.value_s(v));
        },
        BaseExpr::Neg(a) => {
            let (x, y) = (a.value_s(v), a.simplified().value_s(v));
            lemma_base_simplified(*a, v);
            lemma_base_unary(a.simplified(), v);
            M31::law_canon_args(x, x);
            M31::law_canon_args(y, y);
            M31::law_canon_results(x, x);
        },
        BaseExpr::Inv(a) => {
            let (x, y) = (a.value_s(v), a.simplified().value_s(v));
            lemma_base_simplified(*a, v);
            lemma_base_unary(a.simplified(), v);
            lemma_inverses(x);
            lemma_inverses(y);
        },
        _ => {},
    }
}

proof fn lemma_ext_sum(a: ExtExpr, b: ExtExpr, v: Values)
    requires
        a.invertible(v),
        b.invertible(v),
    ensures
        ExtExpr::sum_s(a, b).invertible(v),
        ExtExpr::sum_s(a, b).value_s(v).canon() == a.value_s(v).plus(b.value_s(v)),
{
    reveal_with_fuel(ExtExpr::value_s, 3);
    reveal_with_fuel(ExtExpr::invertible, 3);
    let (x, y) = (a.value_s(v), b.value_s(v));
    let r = ExtExpr::sum_s(a, b);
    QM31::law_canon_results(x, y);
    QM31::law_canon_results(y, y);
    if a is Const && b is Const {
    } else if a.is_zero_const_s() {
        lemma_with_zero(x, y);
    } else if b.is_zero_const_s() {
        lemma_with_zero(y, x);
    } else if a is Neg && b is Neg {
        let (p, q) = (a->Neg_0.value_s(v), b->Neg_0.value_s(v));
        lemma_signs(p, q);
        QM31::law_canon_results(p, q);
        QM31::law_canon_results(q, p);
        QM31::law_canon_results(p.plus(q), p);
    } else if b is Neg {
        let q = b->Neg_0.value_s(v);
        lemma_signs(x, q);
        QM31::law_canon_results(x, q);
        QM31::law_canon_results(x.minus(q), q);
    } else if a is Neg {
        let p = a->Neg_0.value_s(v);
        lemma_signs(p, y);
        QM31::law_canon_results(y, p);
        QM31::law_canon_results(y.minus(p), y);
    }
}

proof fn lemma_ext_difference(a: ExtExpr, b: ExtExpr, v: Values)
    requires
        a.invertible(v),
        b.invertible(v),
    ensures
        ExtExpr::difference_s(a, b).invertible(v),
        ExtExpr::difference_s(a, b).value_s(v).canon() == a.value_s(v).minus(b.value_s(v)),
{
    reveal_with_fuel(ExtExpr::value_s, 3);
    reveal_with_fuel(ExtExpr::invertible, 3);
    let (x, y) = (a.value_s(v), b.value_s(v));
    let r = ExtExpr::difference_s(a, b);
    QM31::law_canon_results(x, y);
    QM31::law_canon_results(y, y);
    if a is Const && b is Const {
    } else if a.is_zero_const_s() {
        lemma_with_zero(x, y);
    } else if b.is_zero_const_s() {
        lemma_with_zero(y, x);
    } else if a is Neg && b is Neg {
        let (p, q) = (a->Neg_0.value_s(v), b->Neg_0.value_s(v));
        lemma_signs(p, q);
        QM31::law_canon_results(p, q);
        QM31::law_canon_results(q, p);
        QM31::law_canon_results(q.minus(p), p);
    } else if b is Neg {
        let q = b->Neg_0.value_s(v);
        lemma_signs(x, q);
        QM31::law_canon_results(x, q);
        QM31::law_canon_results(x.plus(q), q);
    } else if a is Neg {
        let p = a->Neg_0.value_s(v);
        lemma_signs(p, y);
        QM31::law_canon_results(y, p);
        QM31::law_canon_results(p.plus(y), y);
    }
}

proof fn lemma_ext_product(a: ExtExpr, b: ExtExpr, v: Values)
    requires
        a.invertible(v),
        b.invertible(v),
    ensures
        ExtExpr::product_s(a, b).invertible(v),
        ExtExpr::product_s(a, b).value_s(v).canon() == a.value_s(v).times(b.value_s(v)),
{
    reveal_with_fuel(ExtExpr::value_s, 3);
    reveal_with_fuel(ExtExpr::invertible, 3);
    let (x, y) = (a.value_s(v), b.value_s(v));
    let r = ExtExpr::product_s(a, b);
    QM31::law_canon_results(x, y);
    QM31::law_canon_results(y, y);
    if a is Const && b is Const {
    } else if a.is_zero_const_s() {
        lemma_with_zero(x, y);
    } else if b.is_zero_const_s() {
        lemma_with_zero(y, x);
    } else if a.is_one_const_s() {
        lemma_with_one(x, y);
    } else if b.is_one_const_s() {
        lemma_with_one(y, x);
    } else if a is Neg && b is Neg {
        let (p, q) = (a->Neg_0.value_s(v), b->Neg_0.value_s(v));
        lemma_signs(p, q);
        QM31::law_canon_results(p, q);
        QM31::law_canon_results(q, p);
        QM31::law_canon_results(p.times(q), p);
    } else if b is Neg {
        let q = b->Neg_0.value_s(v);
        lemma_signs(x, q);
        QM31::law_canon_results(x, q);
        QM31::law_canon_results(x.times(q), q);
    } else if a is Neg {
        let p = a->Neg_0.value_s(v);
        lemma_signs(p, y);
        QM31::law_canon_results(y, p);
        QM31::law_canon_results(p.times(y), y);
    }
}

proof fn lemma_ext_negation(a: ExtExpr, v: Values)
    requires
        a.invertible(v),
    ensures
        ExtExpr::negation_s(a).invertible(v),
        ExtExpr::negation_s(a).value_s(v).canon() == a.value_s(v).opposite(),
{
    let x = a.value_s(v);
    QM31::law_canon_results(x, x);
    match a {
        ExtExpr::Neg(p) => {
            lemma_signs(p.value_s(v), x);
        },
        ExtExpr::Sub(p, q) => {
            lemma_signs(p.value_s(v), q.value_s(v));
            QM31::law_canon_results(q.value_s(v), p.value_s(v));
        },
        _ => {},
    }
}

/// Simplifying an expression keeps its value.
pub proof fn lemma_ext_simplified(e: ExtExpr, v: Values)
    requires
        e.invertible(v),
    ensures
        e.simplified().invertible(v),
        e.simplified().value_s(v).canon() == e.value_s(v).canon(),
    decreases e,
{
    match e {
        ExtExpr::SecureCol(a, b, c, d) => {
            lemma_base_simplified(*a, v);
            lemma_base_simplified(*b, v);
            lemma_base_simplified(*c, v);
            lemma_base_simplified(*d, v);
            let one = M31::one_el();
            crate::fields::qm31::lemma_coordinates(e.value_s(v), e.value_s(v), one);
            crate::fields::qm31::lemma_coordinates(
                e.simplified().value_s(v),
                e.value_s(v),
                one,
            );
        },
        ExtExpr::Add(a, b) => {
            lemma_ext_simplified(*a, v);
            lemma_ext_simplified(*b, v);
            lemma_ext_sum(a.simplified(), b.simplified(), v);
            lemma_canon_both(a.value_s(v), b.value_s(v));
            lemma_canon_both(a.simplified().value_s(v), b.simplified().value_s(v));
            QM31::law_canon_results(a.value_s(v), b.value_s(v));
        },
        ExtExpr::Sub(a, b) => {
            lemma_ext_simplified(*a, v);
            lemma_ext_simplified(*b, v);
            lemma_ext_difference(a.simplified(), b.simplified(), v);
            lemma_canon_both(a.value_s(v), b.value_s(v));
            lemma_canon_both(a.simplified().value_s(v), b.simplified().value_s(v));
            QM31::law_canon_results(a.value_s(v), b.value_s(v));
        },
        ExtExpr::Mul(a, b) => {
            lemma_ext_simplified(*a, v);
            lemma_ext_simplified(*b, v);
            lemma_ext_product(a.simplified(), b.simplified(), v);
            lemma_canon_both(a.value_s(v), b.value_s(v));
            lemma_canon_both(a.simplified().value_s(v), b.simplified().value_s(v));
            QM31::law_canon_results(a.value_s(v), b.value_s(v));
        },
        ExtExpr::Neg(a) => {
            let (x, y) = (a.value_s(v), a.simplified().value_s(v));
            lemma_ext_simplified(*a, v);
            lemma_ext_negation(a.simplified(), v);
            QM31::law_canon_args(x, x);
            QM31::law_canon_args(y, y);
            QM31::law_canon_results(x, x);
        },
        _ => {},
    }
}

} // verus!
