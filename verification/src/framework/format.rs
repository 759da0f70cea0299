//! Expressions written as text.

use vstd::prelude::*;

use crate::fields::m31::M31;
use crate::fields::qm31::QM31;
use crate::framework::expr::{BaseExpr, ColumnExpr, ExtExpr};
use crate::framework::names::{append_decimal, decimal_s};

verus! {

/// An offset in a column's name.
pub open spec fn offset_text(offset: int) -> Seq<char> {
    if offset >= 0 {
        decimal_s(offset as nat)
    } else {
        "neg_"@ + decimal_s((-offset) as nat)
    }
}

impl ColumnExpr {
    /// The name of a column at an offset.
    pub open spec fn text(self) -> Seq<char> {
        "trace_"@ + decimal_s(self.interaction as nat) + "_column_"@ + decimal_s(self.idx as nat)
            + "_offset_"@ + offset_text(self.offset as int)
    }

    pub fn format_expr(&self) -> (r: String)
        ensures
            r@ == self.text(),
    {
        let mut s = String::from_str("trace_");
        append_decimal(&mut s, self.interaction as u64);
        s.append("_column_");
        append_decimal(&mut s, self.idx as u64);
        s.append("_offset_");
        let ghost head = s@;
        if self.offset >= 0 {
            append_decimal(&mut s, self.offset as u64);
        } else {
            s.append("neg_");
            let below: isize = -(self.offset + 1);
            append_decimal(&mut s, below as u64 + 1);
            assert(s@ =~= head + ("neg_"@ + decimal_s((-self.offset) as nat)));
        }
        s
    }
}

impl BaseExpr {
    /// The expression as text.
    pub open spec fn text(self) -> Seq<char>
        decreases self,
    {
        match self {
            BaseExpr::Col(c) => c.text(),
            BaseExpr::PreprocessedColumn(p) => p.id.id@,
            BaseExpr::Const(c) => "m31("@ + decimal_s(c.0 as nat) + ")"@,
            BaseExpr::Param(name) => name@,
            BaseExpr::Add(a, b) => a.text() + " + "@ + b.text(),
            BaseExpr::Sub(a, b) => a.text() + " - ("@ + b.text() + ")"@,
            BaseExpr::Mul(a, b) => "("@ + a.text() + ") * ("@ + b.text() + ")"@,
            BaseExpr::Neg(a) => "-("@ + a.text() + ")"@,
            BaseExpr::Inv(a) => "1 / ("@ + a.text() + ")"@,
        }
    }

    pub fn format_expr(&self) -> (r: String)
        ensures
            r@ == self.text(),
        decreases self,
    {
        match self {
            BaseExpr::Col(c) => c.format_expr(),
            BaseExpr::PreprocessedColumn(p) => p.id.id.clone(),
            BaseExpr::Const(c) => {
                let mut s = String::from_str("m31(");
                append_decimal(&mut s, c.0 as u64);
                s.append(")");
                s
            },
            BaseExpr::Param(name) => name.clone(),
            BaseExpr::Add(a, b) => {
                let mut s = a.format_expr();
                s.append(" + ");
                s.append(b.format_expr().as_str());
                s
            },
            BaseExpr::Sub(a, b) => {
                let mut s = a.format_expr();
                s.append(" - (");
                s.append(b.format_expr().as_str());
                s.append(")");
                s
            },
            BaseExpr::Mul(a, b) => {
                let mut s = String::from_str("(");
                s.append(a.format_expr().as_str());
                s.append(") * (");
                s.append(b.format_expr().as_str());
                s.append(")");
                s
            },
            BaseExpr::Neg(a) => {
                let mut s = String::from_str("-(");
                s.append(a.format_expr().as_str());
                s.append(")");
                s
            },
            BaseExpr::Inv(a) => {
                let mut s = String::from_str("1 / (");
                s.append(a.format_expr().as_str());
                s.append(")");
                s
            },
        }
    }

    /// The simplified expression as text.
    pub fn simplify_and_format(&self) -> (r: String)
        ensures
            r@ == self.simplified().text(),
    {
        self.simplify().format_expr()
    }

    fn is_plain_zero(&self) -> (r: bool)
        ensures
            r == (*self == BaseExpr::Const(M31(0))),
    {
        match self {
            BaseExpr::Const(c) => c.0 == 0,
            _ => false,
        }
    }
}

/// A secure constant as text.
pub open spec fn secure_text(c: QM31) -> Seq<char> {
    "qm31("@ + decimal_s(c.0.0.0 as nat) + ", "@ + decimal_s(c.0.1.0 as nat) + ", "@ + decimal_s(
        c.1.0.0 as nat,
    ) + ", "@ + decimal_s(c.1.1.0 as nat) + ")"@
}

impl ExtExpr {
    /// The expression as text. An element whose higher coordinates are the constant zero is
    /// written as its first coordinate.
    pub open spec fn text(self) -> Seq<char>
        decreases self,
    {
        match self {
            ExtExpr::SecureCol(a, b, c, d) => if *b == BaseExpr::Const(M31(0)) && *c
                == BaseExpr::Const(M31(0)) && *d == BaseExpr::Const(M31(0)) {
                a.text()
            } else {
                "QM31Impl::from_partial_evals(["@ + a.text() + ", "@ + b.text() + ", "@ + c.text()
                    + ", "@ + d.text() + "])"@
            },
            ExtExpr::Const(c) => secure_text(c),
            ExtExpr::Param(name) => name@,
            ExtExpr::Add(a, b) => a.text() + " + "@ + b.text(),
            ExtExpr::Sub(a, b) => a.text() + " - ("@ + b.text() + ")"@,
            ExtExpr::Mul(a, b) => "("@ + a.text() + ") * ("@ + b.text() + ")"@,
            ExtExpr::Neg(a) => "-("@ + a.text() + ")"@,
        }
    }

    pub fn format_expr(&self) -> (r: String)
        ensures
            r@ == self.text(),
        decreases self,
    {
        match self {
            ExtExpr::SecureCol(a, b, c, d) => {
                if b.is_plain_zero() && c.is_plain_zero() && d.is_plain_zero() {
                    a.format_expr()
                } else {
                    let mut s = String::from_str("QM31Impl::from_partial_evals([");
                    s.append(a.format_expr().as_str());
                    s.append(", ");
                    s.append(b.format_expr().as_str());
                    s.append(", ");
                    s.append(c.format_expr().as_str());
                    s.append(", ");
                    s.append(d.format_expr().as_str());
                    s.append("])");
                    s
                }
            },
            ExtExpr::Const(c) => {
                let mut s = String::from_str("qm31(");
                append_decimal(&mut s, c.0.0.0 as u64);
                s.append(", ");
                append_decimal(&mut s, c.0.1.0 as u64);
                s.append(", ");
                append_decimal(&mut s, c.1.0.0 as u64);
                s.append(", ");
                append_decimal(&mut s, c.1.1.0 as u64);
                s.append(")");
                s
            },
            ExtExpr::Param(name) => name.clone(),
            ExtExpr::Add(a, b) => {
                let mut s = a.format_expr();
                s.append(" + ");
                s.append(b.format_expr().as_str());
                s
            },
            ExtExpr::Sub(a, b) => {
                let mut s = a.format_expr();
                s.append(" - (");
                s.append(b.format_expr().as_str());
                s.append(")");
                s
            },
            ExtExpr::Mul(a, b) => {
                let mut s = String::from_str("(");
                s.append(a.format_expr().as_str());
                s.append(") * (");
                s.append(b.format_expr().as_str());
                s.append(")");
                s
            },
            ExtExpr::Neg(a) => {
                let mut s = String::from_str("-(");
                s.append(a.format_expr().as_str());
                s.append(")");
                s
            },
        }
    }

    /// The simplified expression as text.
    pub fn simplify_and_format(&self) -> (r: String)
        ensures
            r@ == self.simplified().text(),
    {
        self.simplify().format_expr()
    }
}

/// The first `n` texts with a separator between them.
pub open spec fn joined(texts: spec_fn(int) -> Seq<char>, n: nat, separator: Seq<char>) -> Seq<char>
    decreases n,
{
    if n == 0 {
        Seq::empty()
    } else if n == 1 {
        texts(0)
    } else {
        joined(texts, (n - 1) as nat, separator) + separator + texts(n - 1)
    }
}

} // verus!
