//! Formal expressions over trace columns and parameters, and what they are worth.

use vstd::prelude::*;

use crate::fields::m31::M31;
use crate::fields::qm31::QM31;
use crate::fields::{inv_of, lemma_inv_of, Field};
use crate::framework::column_map::ColumnMap;
use crate::framework::names::NameMap;

verus! {

/// The value of a trace column at an offset from the current row.
#[derive(Clone, Copy, Debug, PartialEq, Eq, Structural, Hash)]
pub struct ColumnExpr {
    pub interaction: usize,
    pub idx: usize,
    pub offset: isize,
}

/// The name of a preprocessed column.
#[derive(Clone, Debug, PartialEq, Eq, Hash)]
pub struct PreProcessedColumnId {
    pub id: String,
}

impl PreProcessedColumnId {
    pub fn duplicate(&self) -> (r: PreProcessedColumnId)
        ensures
            r == *self,
    {
        PreProcessedColumnId { id: self.id.clone() }
    }
}

/// One access to a preprocessed column: which column, and the how manyth access it is.
#[derive(Clone, Debug, PartialEq, Eq)]
pub struct PreprocessedColumnExpr {
    pub id: PreProcessedColumnId,
    pub index: usize,
}

impl PreprocessedColumnExpr {
    pub fn new(column: PreProcessedColumnId, access_index: usize) -> (r: PreprocessedColumnExpr)
        ensures
            r.id == column,
            r.index == access_index,
    {
        PreprocessedColumnExpr { id: column, index: access_index }
    }

    pub fn column(&self) -> (r: &PreProcessedColumnId)
        ensures
            *r == self.id,
    {
        &self.id
    }

    pub fn access_index(&self) -> (r: usize)
        ensures
            r == self.index,
    {
        self.index
    }

    /// The entry that belongs to this access in a list with one entry for each access.
    pub fn bind(&self, manifest: &[usize]) -> (r: usize)
        requires
            self.index < manifest@.len(),
        ensures
            r == manifest@[self.index as int],
    {
        manifest[self.index]
    }

    pub fn duplicate(&self) -> (r: PreprocessedColumnExpr)
        ensures
            r == *self,
    {
        PreprocessedColumnExpr { id: self.id.duplicate(), index: self.index }
    }
}

/// An expression in the base field.
#[derive(Debug, PartialEq, Eq)]
pub enum BaseExpr {
    Col(ColumnExpr),
    PreprocessedColumn(PreprocessedColumnExpr),
    Const(M31),
    Param(String),
    Add(Box<BaseExpr>, Box<BaseExpr>),
    Sub(Box<BaseExpr>, Box<BaseExpr>),
    Mul(Box<BaseExpr>, Box<BaseExpr>),
    Neg(Box<BaseExpr>),
    Inv(Box<BaseExpr>),
}

/// An expression in the secure field.
#[derive(Debug, PartialEq, Eq)]
pub enum ExtExpr {
    /// An element given by its four coordinates.
    SecureCol(Box<BaseExpr>, Box<BaseExpr>, Box<BaseExpr>, Box<BaseExpr>),
    Const(QM31),
    Param(String),
    Add(Box<ExtExpr>, Box<ExtExpr>),
    Sub(Box<ExtExpr>, Box<ExtExpr>),
    Mul(Box<ExtExpr>, Box<ExtExpr>),
    Neg(Box<ExtExpr>),
}

/// What every variable is worth.
pub struct Values {
    pub columns: spec_fn(ColumnExpr) -> M31,
    pub preprocessed: spec_fn(Seq<char>) -> M31,
    pub params: spec_fn(Seq<char>) -> M31,
    pub ext_params: spec_fn(Seq<char>) -> QM31,
}

impl BaseExpr {
    /// What the expression is worth.
    pub open spec fn value_s(self, v: Values) -> M31
        decreases self,
    {
        match self {
            BaseExpr::Col(c) => (v.columns)(c),
            BaseExpr::PreprocessedColumn(p) => (v.preprocessed)(p.id.id@),
            BaseExpr::Const(c) => c,
            BaseExpr::Param(name) => (v.params)(name@),
            BaseExpr::Add(a, b) => a.value_s(v).plus(b.value_s(v)),
            BaseExpr::Sub(a, b) => a.value_s(v).minus(b.value_s(v)),
            BaseExpr::Mul(a, b) => a.value_s(v).times(b.value_s(v)),
            BaseExpr::Neg(a) => a.value_s(v).opposite(),
            BaseExpr::Inv(a) => inv_of(a.value_s(v)),
        }
    }

    /// No inverse of zero is taken.
    pub open spec fn invertible(self, v: Values) -> bool
        decreases self,
    {
        match self {
            BaseExpr::Add(a, b) => a.invertible(v) && b.invertible(v),
            BaseExpr::Sub(a, b) => a.invertible(v) && b.invertible(v),
            BaseExpr::Mul(a, b) => a.invertible(v) && b.invertible(v),
            BaseExpr::Neg(a) => a.invertible(v),
            BaseExpr::Inv(a) => a.invertible(v) && a.value_s(v).canon() != M31::zero_el(),
            _ => true,
        }
    }

    /// The assignment has a value for every variable of the expression.
    pub open spec fn bound_in(self, a: ExprVarAssignment) -> bool
        decreases self,
    {
        match self {
            BaseExpr::Col(c) => a.column_s(c) is Some,
            BaseExpr::PreprocessedColumn(p) => a.preprocessed_cols.value_of(p.id.id@) is Some,
            BaseExpr::Const(c) => true,
            BaseExpr::Param(name) => a.params.value_of(name@) is Some,
            BaseExpr::Add(x, y) => x.bound_in(a) && y.bound_in(a),
            BaseExpr::Sub(x, y) => x.bound_in(a) && y.bound_in(a),
            BaseExpr::Mul(x, y) => x.bound_in(a) && y.bound_in(a),
            BaseExpr::Neg(x) => x.bound_in(a),
            BaseExpr::Inv(x) => x.bound_in(a),
        }
    }

    pub fn zero() -> (r: BaseExpr)
        ensures
            r == BaseExpr::Const(M31(0)),
    {
        BaseExpr::Const(M31(0))
    }

    pub fn one() -> (r: BaseExpr)
        ensures
            r == BaseExpr::Const(M31(1)),
    {
        BaseExpr::Const(M31(1))
    }

    pub fn add(self, rhs: BaseExpr) -> (r: BaseExpr)
        ensures
            r == BaseExpr::Add(Box::new(self), Box::new(rhs)),
    {
        BaseExpr::Add(Box::new(self), Box::new(rhs))
    }

    pub fn sub(self, rhs: BaseExpr) -> (r: BaseExpr)
        ensures
            r == BaseExpr::Sub(Box::new(self), Box::new(rhs)),
    {
        BaseExpr::Sub(Box::new(self), Box::new(rhs))
    }

    pub fn mul(self, rhs: BaseExpr) -> (r: BaseExpr)
        ensures
            r == BaseExpr::Mul(Box::new(self), Box::new(rhs)),
    {
        BaseExpr::Mul(Box::new(self), Box::new(rhs))
    }

    pub fn neg(self) -> (r: BaseExpr)
        ensures
            r == BaseExpr::Neg(Box::new(self)),
    {
        BaseExpr::Neg(Box::new(self))
    }

    pub fn inverse(self) -> (r: BaseExpr)
        ensures
            r == BaseExpr::Inv(Box::new(self)),
    {
        BaseExpr::Inv(Box::new(self))
    }

    pub fn duplicate(&self) -> (r: BaseExpr)
        ensures
            r == *self,
        decreases self,
    {
        match self {
            BaseExpr::Col(c) => BaseExpr::Col(*c),
            BaseExpr::PreprocessedColumn(p) => BaseExpr::PreprocessedColumn(p.duplicate()),
            BaseExpr::Const(c) => BaseExpr::Const(*c),
            BaseExpr::Param(name) => BaseExpr::Param(name.clone()),
            BaseExpr::Add(a, b) => BaseExpr::Add(Box::new(a.duplicate()), Box::new(b.duplicate())),
            BaseExpr::Sub(a, b) => BaseExpr::Sub(Box::new(a.duplicate()), Box::new(b.duplicate())),
            BaseExpr::Mul(a, b) => BaseExpr::Mul(Box::new(a.duplicate()), Box::new(b.duplicate())),
            BaseExpr::Neg(a) => BaseExpr::Neg(Box::new(a.duplicate())),
            BaseExpr::Inv(a) => BaseExpr::Inv(Box::new(a.duplicate())),
        }
    }

    /// What the expression is worth under an assignment.
    pub fn assign(&self, assignment: &ExprVarAssignment) -> (r: M31)
        requires
            self.bound_in(*assignment),
            self.invertible(assignment.values()),
        ensures
            r == self.value_s(assignment.values()),
        decreases self,
    {
        match self {
            BaseExpr::Col(c) => match assignment.column(c) {
                Some(x) => x,
                None => M31::zero(),
            },
            BaseExpr::PreprocessedColumn(p) => match assignment.preprocessed_cols.get(&p.id.id) {
                Some(x) => *x,
                None => M31::zero(),
            },
            BaseExpr::Const(c) => *c,
            BaseExpr::Param(name) => match assignment.params.get(name) {
                Some(x) => *x,
                None => M31::zero(),
            },
            BaseExpr::Add(a, b) => a.assign(assignment).add(b.assign(assignment)),
            BaseExpr::Sub(a, b) => a.assign(assignment).sub(b.assign(assignment)),
            BaseExpr::Mul(a, b) => a.assign(assignment).mul(b.assign(assignment)),
            BaseExpr::Neg(a) => a.assign(assignment).neg(),
            BaseExpr::Inv(a) => {
                let x = a.assign(assignment);
                let y = x.inverse();
                proof {
                    lemma_inv_of(x, y);
                }
                y
            },
        }
    }
}

/// The secure element with the given coordinates.
pub open spec fn from_coords(a: M31, b: M31, c: M31, d: M31) -> QM31 {
    QM31(crate::fields::cm31::CM31(a, b), crate::fields::cm31::CM31(c, d))
}

impl ExtExpr {
    /// What the expression is worth.
    pub open spec fn value_s(self, v: Values) -> QM31
        decreases self,
    {
        match self {
            ExtExpr::SecureCol(a, b, c, d) => from_coords(
                a.value_s(v),
                b.value_s(v),
                c.value_s(v),
                d.value_s(v),
            ),
            ExtExpr::Const(c) => c,
            ExtExpr::Param(name) => (v.ext_params)(name@),
            ExtExpr::Add(a, b) => a.value_s(v).plus(b.value_s(v)),
            ExtExpr::Sub(a, b) => a.value_s(v).minus(b.value_s(v)),
            ExtExpr::Mul(a, b) => a.value_s(v).times(b.value_s(v)),
            ExtExpr::Neg(a) => a.value_s(v).opposite(),
        }
    }

    /// No inverse of zero is taken.
    pub open spec fn invertible(self, v: Values) -> bool
        decreases self,
    {
        match self {
            ExtExpr::SecureCol(a, b, c, d) => a.invertible(v) && b.invertible(v) && c.invertible(v)
                && d.invertible(v),
            ExtExpr::Add(a, b) => a.invertible(v) && b.invertible(v),
            ExtExpr::Sub(a, b) => a.invertible(v) && b.invertible(v),
            ExtExpr::Mul(a, b) => a.invertible(v) && b.invertible(v),
            ExtExpr::Neg(a) => a.invertible(v),
            _ => true,
        }
    }

    /// The assignment has a value for every variable of the expression.
    pub open spec fn bound_in(self, a: ExprVarAssignment) -> bool
        decreases self,
    {
        match self {
            ExtExpr::SecureCol(x, y, z, w) => x.bound_in(a) && y.bound_in(a) && z.bound_in(a)
                && w.bound_in(a),
            ExtExpr::Const(c) => true,
            ExtExpr::Param(name) => a.ext_params.value_of(name@) is Some,
            ExtExpr::Add(x, y) => x.bound_in(a) && y.bound_in(a),
            ExtExpr::Sub(x, y) => x.bound_in(a) && y.bound_in(a),
            ExtExpr::Mul(x, y) => x.bound_in(a) && y.bound_in(a),
            ExtExpr::Neg(x) => x.bound_in(a),
        }
    }

    pub fn zero() -> (r: ExtExpr)
        ensures
            r == ExtExpr::Const(QM31::zero_el()),
    {
        ExtExpr::Const(QM31::zero())
    }

    pub fn one() -> (r: ExtExpr)
        ensures
            r == ExtExpr::Const(QM31::one_el()),
    {
        ExtExpr::Const(QM31::one())
    }

    /// A base expression as a secure one: its other coordinates are zero.
    pub open spec fn from_base_s(e: BaseExpr) -> ExtExpr {
        ExtExpr::SecureCol(
            Box::new(e),
            Box::new(BaseExpr::Const(M31(0))),
            Box::new(BaseExpr::Const(M31(0))),
            Box::new(BaseExpr::Const(M31(0))),
        )
    }

    pub fn from_base(e: BaseExpr) -> (r: ExtExpr)
        ensures
            r == ExtExpr::from_base_s(e),
    {
        ExtExpr::SecureCol(
            Box::new(e),
            Box::new(BaseExpr::zero()),
            Box::new(BaseExpr::zero()),
            Box::new(BaseExpr::zero()),
        )
    }

    pub fn add(self, rhs: ExtExpr) -> (r: ExtExpr)
        ensures
            r == ExtExpr::Add(Box::new(self), Box::new(rhs)),
    {
        ExtExpr::Add(Box::new(self), Box::new(rhs))
    }

    pub fn sub(self, rhs: ExtExpr) -> (r: ExtExpr)
        ensures
            r == ExtExpr::Sub(Box::new(self), Box::new(rhs)),
    {
        ExtExpr::Sub(Box::new(self), Box::new(rhs))
    }

    pub fn mul(self, rhs: ExtExpr) -> (r: ExtExpr)
        ensures
            r == ExtExpr::Mul(Box::new(self), Box::new(rhs)),
    {
        ExtExpr::Mul(Box::new(self), Box::new(rhs))
    }

    pub fn neg(self) -> (r: ExtExpr)
        ensures
            r == ExtExpr::Neg(Box::new(self)),
    {
        ExtExpr::Neg(Box::new(self))
    }

    pub fn duplicate(&self) -> (r: ExtExpr)
        ensures
            r == *self,
        decreases self,
    {
        match self {
            ExtExpr::SecureCol(a, b, c, d) => ExtExpr::SecureCol(
                Box::new(a.duplicate()),
                Box::new(b.duplicate()),
                Box::new(c.duplicate()),
                Box::new(d.duplicate()),
            ),
            ExtExpr::Const(c) => ExtExpr::Const(*c),
            ExtExpr::Param(name) => ExtExpr::Param(name.clone()),
            ExtExpr::Add(a, b) => ExtExpr::Add(Box::new(a.duplicate()), Box::new(b.duplicate())),
            ExtExpr::Sub(a, b) => ExtExpr::Sub(Box::new(a.duplicate()), Box::new(b.duplicate())),
            ExtExpr::Mul(a, b) => ExtExpr::Mul(Box::new(a.duplicate()), Box::new(b.duplicate())),
            ExtExpr::Neg(a) => ExtExpr::Neg(Box::new(a.duplicate())),
        }
    }

    /// What the expression is worth under an assignment.
    pub fn assign(&self, assignment: &ExprVarAssignment) -> (r: QM31)
        requires
            self.bound_in(*assignment),
            self.invertible(assignment.values()),
        ensures
            r == self.value_s(assignment.values()),
        decreases self,
    {
        match self {
            ExtExpr::SecureCol(a, b, c, d) => QM31::from_m31(
                a.assign(assignment),
                b.assign(assignment),
                c.assign(assignment),
                d.assign(assignment),
            ),
            ExtExpr::Const(c) => *c,
            ExtExpr::Param(name) => match assignment.ext_params.get(name) {
                Some(x) => *x,
                None => QM31::zero(),
            },
            ExtExpr::Add(a, b) => a.assign(assignment).add(b.assign(assignment)),
            ExtExpr::Sub(a, b) => a.assign(assignment).sub(b.assign(assignment)),
            ExtExpr::Mul(a, b) => a.assign(assignment).mul(b.assign(assignment)),
            ExtExpr::Neg(a) => a.assign(assignment).neg(),
        }
    }
}

/// Values for variables.
#[derive(Clone, Debug, PartialEq, Eq)]
pub struct ExprVarAssignment {
    pub columns: ColumnMap,
    pub params: NameMap<M31>,
    pub ext_params: NameMap<QM31>,
    pub preprocessed_cols: NameMap<M31>,
}

/// An optional value, with zero where there is none.
pub open spec fn or_zero<F: Field>(x: Option<F>) -> F {
    match x {
        Some(y) => y,
        None => F::zero_el(),
    }
}

impl ExprVarAssignment {
    pub open spec fn column_s(self, c: ColumnExpr) -> Option<M31> {
        self.columns.value_of(c)
    }

    /// The assigned values.
    pub open spec fn values(self) -> Values {
        Values {
            columns: |c: ColumnExpr| or_zero(self.column_s(c)),
            preprocessed: |n: Seq<char>| or_zero(self.preprocessed_cols.value_of(n)),
            params: |n: Seq<char>| or_zero(self.params.value_of(n)),
            ext_params: |n: Seq<char>| or_zero(self.ext_params.value_of(n)),
        }
    }

    pub fn new() -> (r: ExprVarAssignment)
        ensures
            forall|c: ColumnExpr| #[trigger] r.column_s(c) is None,
            forall|n: Seq<char>| #[trigger] r.params.value_of(n) is None,
            forall|n: Seq<char>| #[trigger] r.ext_params.value_of(n) is None,
            forall|n: Seq<char>| #[trigger] r.preprocessed_cols.value_of(n) is None,
    {
        ExprVarAssignment {
            columns: ColumnMap::new(),
            params: NameMap::new(),
            ext_params: NameMap::new(),
            preprocessed_cols: NameMap::new(),
        }
    }

    /// The value of a column, if it has one.
    pub fn column(&self, c: &ColumnExpr) -> (r: Option<M31>)
        ensures
            r == self.column_s(*c),
    {
        self.columns.get(c)
    }
}

} // verus!
