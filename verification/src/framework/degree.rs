//! Degree bounds of expressions in the trace columns.

use vstd::prelude::*;

use crate::framework::expr::{BaseExpr, ExtExpr};
use crate::framework::names::NameMap;

verus! {

/// Expressions that parameters may stand for.
pub struct NamedExprs<'a> {
    pub exprs: &'a NameMap<BaseExpr>,
    pub ext_exprs: &'a NameMap<ExtExpr>,
}

pub open spec fn max_of(a: nat, b: nat) -> nat {
    if a >= b {
        a
    } else {
        b
    }
}

fn larger(a: usize, b: usize) -> (r: usize)
    ensures
        r == max_of(a as nat, b as nat),
{
    if a >= b {
        a
    } else {
        b
    }
}

impl<'a> NamedExprs<'a> {
    /// The degree of a base expression, where names are followed `depth` times in a row. A
    /// parameter that stands for nothing is constant, and so is the inverse of a constant.
    pub open spec fn base_degree(self, e: BaseExpr, depth: nat) -> nat
        decreases depth, 0int, e,
    {
        match e {
            BaseExpr::Col(_) => 1,
            BaseExpr::PreprocessedColumn(_) => 1,
            BaseExpr::Const(_) => 0,
            BaseExpr::Param(name) => if depth == 0 {
                0
            } else {
                match self.exprs.value_of(name@) {
                    Some(x) => self.base_degree(x, (depth - 1) as nat),
                    None => match self.ext_exprs.value_of(name@) {
                        Some(x) => self.ext_degree(x, (depth - 1) as nat),
                        None => 0,
                    },
                }
            },
            BaseExpr::Add(a, b) => max_of(self.base_degree(*a, depth), self.base_degree(*b, depth)),
            BaseExpr::Sub(a, b) => max_of(self.base_degree(*a, depth), self.base_degree(*b, depth)),
            BaseExpr::Mul(a, b) => self.base_degree(*a, depth) + self.base_degree(*b, depth),
            BaseExpr::Neg(a) => self.base_degree(*a, depth),
            BaseExpr::Inv(a) => 0,
        }
    }

    /// The degree of an expression.
    pub open spec fn ext_degree(self, e: ExtExpr, depth: nat) -> nat
        decreases depth, 1int, e,
    {
        match e {
            ExtExpr::SecureCol(a, b, c, d) => max_of(
                max_of(self.base_degree(*a, depth), self.base_degree(*b, depth)),
                max_of(self.base_degree(*c, depth), self.base_degree(*d, depth)),
            ),
            ExtExpr::Const(_) => 0,
            ExtExpr::Param(name) => if depth == 0 {
                0
            } else {
                match self.exprs.value_of(name@) {
                    Some(x) => self.base_degree(x, (depth - 1) as nat),
                    None => match self.ext_exprs.value_of(name@) {
                        Some(x) => self.ext_degree(x, (depth - 1) as nat),
                        None => 0,
                    },
                }
            },
            ExtExpr::Add(a, b) => max_of(self.ext_degree(*a, depth), self.ext_degree(*b, depth)),
            ExtExpr::Sub(a, b) => max_of(self.ext_degree(*a, depth), self.ext_degree(*b, depth)),
            ExtExpr::Mul(a, b) => self.ext_degree(*a, depth) + self.ext_degree(*b, depth),
            ExtExpr::Neg(a) => self.ext_degree(*a, depth),
        }
    }

    /// Only constants are inverted, so the expression is a polynomial in the columns.
    pub open spec fn base_polynomial(self, e: BaseExpr, depth: nat) -> bool
        decreases depth, 0int, e,
    {
        match e {
            BaseExpr::Param(name) => depth > 0 ==> match self.exprs.value_of(name@) {
                Some(x) => self.base_polynomial(x, (depth - 1) as nat),
                None => match self.ext_exprs.value_of(name@) {
                    Some(x) => self.ext_polynomial(x, (depth - 1) as nat),
                    None => true,
                },
            },
            BaseExpr::Add(a, b) => self.base_polynomial(*a, depth) && self.base_polynomial(
                *b,
                depth,
            ),
            BaseExpr::Sub(a, b) => self.base_polynomial(*a, depth) && self.base_polynomial(
                *b,
                depth,
            ),
            BaseExpr::Mul(a, b) => self.base_polynomial(*a, depth) && self.base_polynomial(
                *b,
                depth,
            ),
            BaseExpr::Neg(a) => self.base_polynomial(*a, depth),
            BaseExpr::Inv(a) => self.base_polynomial(*a, depth) && self.base_degree(*a, depth) == 0,
            _ => true,
        }
    }

    pub open spec fn ext_polynomial(self, e: ExtExpr, depth: nat) -> bool
        decreases depth, 1int, e,
    {
        match e {
            ExtExpr::SecureCol(a, b, c, d) => self.base_polynomial(*a, depth)
                && self.base_polynomial(*b, depth) && self.base_polynomial(*c, depth)
                && self.base_polynomial(*d, depth),
            ExtExpr::Const(_) => true,
            ExtExpr::Param(name) => depth > 0 ==> match self.exprs.value_of(name@) {
                Some(x) => self.base_polynomial(x, (depth - 1) as nat),
                None => match self.ext_exprs.value_of(name@) {
                    Some(x) => self.ext_polynomial(x, (depth - 1) as nat),
                    None => true,
                },
            },
            ExtExpr::Add(a, b) => self.ext_polynomial(*a, depth) && self.ext_polynomial(*b, depth),
            ExtExpr::Sub(a, b) => self.ext_polynomial(*a, depth) && self.ext_polynomial(*b, depth),
            ExtExpr::Mul(a, b) => self.ext_polynomial(*a, depth) && self.ext_polynomial(*b, depth),
            ExtExpr::Neg(a) => self.ext_polynomial(*a, depth),
        }
    }

    /// The degree of a base expression.
    pub fn base_degree_bound(&self, e: &BaseExpr, depth: usize) -> (r: usize)
        requires
            self.base_polynomial(*e, depth as nat),
            self.base_degree(*e, depth as nat) <= usize::MAX,
        ensures
            r == self.base_degree(*e, depth as nat),
        decreases depth, 0int, e,
    {
        match e {
            BaseExpr::Col(_) => 1,
            BaseExpr::PreprocessedColumn(_) => 1,
            BaseExpr::Const(_) => 0,
            BaseExpr::Param(name) => if depth == 0 {
                0
            } else {
                match self.exprs.get(name) {
                    Some(x) => self.base_degree_bound(x, depth - 1),
                    None => match self.ext_exprs.get(name) {
                        Some(x) => self.ext_degree_bound(x, depth - 1),
                        None => 0,
                    },
                }
            },
            BaseExpr::Add(a, b) => larger(
                self.base_degree_bound(a, depth),
                self.base_degree_bound(b, depth),
            ),
            BaseExpr::Sub(a, b) => larger(
                self.base_degree_bound(a, depth),
                self.base_degree_bound(b, depth),
            ),
            BaseExpr::Mul(a, b) => self.base_degree_bound(a, depth) + self.base_degree_bound(
                b,
                depth,
            ),
            BaseExpr::Neg(a) => self.base_degree_bound(a, depth),
            BaseExpr::Inv(_) => 0,
        }
    }

    /// The degree of an expression.
    pub fn ext_degree_bound(&self, e: &ExtExpr, depth: usize) -> (r: usize)
        requires
            self.ext_polynomial(*e, depth as nat),
            self.ext_degree(*e, depth as nat) <= usize::MAX,
        ensures
            r == self.ext_degree(*e, depth as nat),
        decreases depth, 1int, e,
    {
        match e {
            ExtExpr::SecureCol(a, b, c, d) => larger(
                larger(self.base_degree_bound(a, depth), self.base_degree_bound(b, depth)),
                larger(self.base_degree_bound(c, depth), self.base_degree_bound(d, depth)),
            ),
            ExtExpr::Const(_) => 0,
            ExtExpr::Param(name) => if depth == 0 {
                0
            } else {
                match self.exprs.get(name) {
                    Some(x) => self.base_degree_bound(x, depth - 1),
                    None => match self.ext_exprs.get(name) {
                        Some(x) => self.ext_degree_bound(x, depth - 1),
                        None => 0,
                    },
                }
            },
            ExtExpr::Add(a, b) => larger(
                self.ext_degree_bound(a, depth),
                self.ext_degree_bound(b, depth),
            ),
            ExtExpr::Sub(a, b) => larger(
                self.ext_degree_bound(a, depth),
                self.ext_degree_bound(b, depth),
            ),
            ExtExpr::Mul(a, b) => self.ext_degree_bound(a, depth) + self.ext_degree_bound(b, depth),
            ExtExpr::Neg(a) => self.ext_degree_bound(a, depth),
        }
    }
}

} // verus!
