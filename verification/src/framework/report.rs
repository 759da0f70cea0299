//! What a written-down component says of itself: its text, its degrees and its variables.

use vstd::prelude::*;

use crate::fields::m31::M31;
use crate::fields::qm31::QM31;
use crate::fields::Field;
use crate::framework::degree::NamedExprs;
use crate::framework::evaluator::ExprEvaluator;
use crate::framework::expr::{or_zero, BaseExpr, ColumnExpr, ExprVarAssignment, ExtExpr, Values};
use crate::framework::format::joined;
use crate::framework::names::{append_decimal, decimal_s};
use crate::framework::variables::{
    drawn_base, drawn_ext, has_name, name_words, some_if, ExprVariables, TAG_COLUMN,
    TAG_EXT_PARAM, TAG_PARAM, TAG_PREPROCESSED,
};

verus! {

impl ExprEvaluator {
    /// What the `k`-th intermediate stands for.
    pub open spec fn expr_at(self, k: int) -> ExtExpr {
        match self.intermediates.value_of(self.ordered@[k]@) {
            Some(e) => ExtExpr::from_base_s(e),
            None => self.ext_intermediates.value_of(self.ordered@[k]@)->Some_0,
        }
    }

    /// The text of what the `k`-th intermediate stands for, simplified.
    pub open spec fn intermediate_text_s(self, k: int) -> Seq<char> {
        match self.intermediates.value_of(self.ordered@[k]@) {
            Some(e) => e.simplified().text(),
            None => self.ext_intermediates.value_of(
                self.ordered@[k]@,
            )->Some_0.simplified().text(),
        }
    }

    /// `let <name> = <expression>;`
    pub open spec fn intermediate_line(self) -> spec_fn(int) -> Seq<char> {
        |k: int| "let "@ + self.ordered@[k]@ + " = "@ + self.intermediate_text_s(k) + ";"@
    }

    /// `let constraint_<i> = <expression>;`
    pub open spec fn constraint_line(self) -> spec_fn(int) -> Seq<char> {
        |i: int|
            "let constraint_"@ + decimal_s(i as nat) + " = "@
                + self.constraints@[i].simplified().text() + ";"@
    }

    /// All lines, intermediates first, with an empty line between them.
    pub open spec fn text(self) -> Seq<char> {
        let above = joined(self.intermediate_line(), self.ordered@.len(), "\n\n"@);
        let below = joined(self.constraint_line(), self.constraints@.len(), "\n\n"@);
        if self.constraints@.len() == 0 {
            above
        } else if self.ordered@.len() == 0 {
            below
        } else {
            above + "\n\n"@ + below
        }
    }

    /// The component as text.
    pub fn format_constraints(&self) -> (r: String)
        requires
            self.wf(),
        ensures
            r@ == self.text(),
    {
        let n = self.ordered.len();
        let mut above = String::new();
        let mut k: usize = 0;
        while k < n
            invariant
                k <= n == self.ordered@.len(),
                self.wf(),
                above@ == joined(self.intermediate_line(), k as nat, "\n\n"@),
            decreases n - k,
        {
            let name = &self.ordered[k];
            let mut line = String::from_str("let ");
            line.append(name.as_str());
            line.append(" = ");
            assert(self.intermediates.value_of(self.ordered@[k as int]@) is Some
                || self.ext_intermediates.value_of(self.ordered@[k as int]@) is Some);
            match self.intermediates.get(name) {
                Some(e) => {
                    line.append(e.simplify_and_format().as_str());
                },
                None => match self.ext_intermediates.get(name) {
                    Some(e) => {
                        line.append(e.simplify_and_format().as_str());
                    },
                    None => {},
                },
            }
            line.append(";");
            assert(line@ == (self.intermediate_line())(k as int));
            if k == 0 {
                above = line;
            } else {
                above.append("\n\n");
                above.append(line.as_str());
            }
            k += 1;
        }
        let m = self.constraints.len();
        let mut below = String::new();
        let mut i: usize = 0;
        while i < m
            invariant
                i <= m == self.constraints@.len(),
                below@ == joined(self.constraint_line(), i as nat, "\n\n"@),
            decreases m - i,
        {
            let mut line = String::from_str("let constraint_");
            append_decimal(&mut line, i as u64);
            line.append(" = ");
            line.append(self.constraints[i].simplify_and_format().as_str());
            line.append(";");
            assert(line@ == (self.constraint_line())(i as int));
            if i == 0 {
                below = line;
            } else {
                below.append("\n\n");
                below.append(line.as_str());
            }
            i += 1;
        }
        if m == 0 {
            above
        } else if n == 0 {
            below
        } else {
            above.append("\n\n");
            above.append(below.as_str());
            above
        }
    }

    /// The names that parameters may stand for.
    pub open spec fn names(&self) -> NamedExprs<'_> {
        NamedExprs { exprs: &self.intermediates, ext_exprs: &self.ext_intermediates }
    }

    /// The degree of every constraint, through the intermediates. Chains of names are followed for
    /// as long as there are names.
    pub fn constraint_degree_bounds(&self) -> (r: Vec<usize>)
        requires
            forall|i: int|
                0 <= i < self.constraints@.len() ==> self.names().ext_polynomial(
                    #[trigger] self.constraints@[i],
                    self.ordered@.len(),
                ) && self.names().ext_degree(self.constraints@[i], self.ordered@.len())
                    <= usize::MAX,
        ensures
            r@.len() == self.constraints@.len(),
            forall|i: int|
                0 <= i < r@.len() ==> #[trigger] r@[i] == self.names().ext_degree(
                    self.constraints@[i],
                    self.ordered@.len(),
                ),
    {
        let names = NamedExprs { exprs: &self.intermediates, ext_exprs: &self.ext_intermediates };
        let mut r: Vec<usize> = Vec::new();
        let mut i: usize = 0;
        while i < self.constraints.len()
            invariant
                i <= self.constraints@.len(),
                names == self.names(),
                forall|i: int|
                    0 <= i < self.constraints@.len() ==> self.names().ext_polynomial(
                        #[trigger] self.constraints@[i],
                        self.ordered@.len(),
                    ) && self.names().ext_degree(self.constraints@[i], self.ordered@.len())
                        <= usize::MAX,
                r@.len() == i,
                forall|j: int|
                    0 <= j < i ==> #[trigger] r@[j] == self.names().ext_degree(
                        self.constraints@[j],
                        self.ordered@.len(),
                    ),
            decreases self.constraints@.len() - i,
        {
            r.push(names.ext_degree_bound(&self.constraints[i], self.ordered.len()));
            i += 1;
        }
        r
    }

    /// The constraints and what the intermediates stand for.
    pub open spec fn all_exprs(self) -> Seq<ExtExpr> {
        self.constraints@ + Seq::new(self.ordered@.len(), |k: int| self.expr_at(k))
    }
}

pub open spec fn some_uses_column(exprs: Seq<ExtExpr>, c: ColumnExpr) -> bool {
    exists|i: int| 0 <= i < exprs.len() && (#[trigger] exprs[i]).uses_column(c)
}

pub open spec fn some_uses_param(exprs: Seq<ExtExpr>, n: Seq<char>) -> bool {
    exists|i: int| 0 <= i < exprs.len() && (#[trigger] exprs[i]).uses_param(n)
}

pub open spec fn some_uses_ext_param(exprs: Seq<ExtExpr>, n: Seq<char>) -> bool {
    exists|i: int| 0 <= i < exprs.len() && (#[trigger] exprs[i]).uses_ext_param(n)
}

pub open spec fn some_uses_preprocessed(exprs: Seq<ExtExpr>, n: Seq<char>) -> bool {
    exists|i: int| 0 <= i < exprs.len() && (#[trigger] exprs[i]).uses_preprocessed(n)
}

/// The variables are those of the expressions.
pub open spec fn collects(vars: ExprVariables, exprs: Seq<ExtExpr>) -> bool {
    &&& forall|c: ColumnExpr| #[trigger] vars.has_column(c) <==> some_uses_column(exprs, c)
    &&& forall|n: Seq<char>| #[trigger] vars.has_param(n) <==> some_uses_param(exprs, n)
    &&& forall|n: Seq<char>| #[trigger] vars.has_ext_param(n) <==> some_uses_ext_param(exprs, n)
    &&& forall|n: Seq<char>|
        #[trigger] vars.has_preprocessed(n) <==> some_uses_preprocessed(exprs, n)
}

proof fn lemma_collects_step(
    before: ExprVariables,
    after: ExprVariables,
    exprs: Seq<ExtExpr>,
    i: int,
)
    requires
        0 <= i < exprs.len(),
        collects(before, exprs.take(i)),
        forall|c: ColumnExpr|
            #[trigger] after.has_column(c) <==> before.has_column(c) || exprs[i].uses_column(c),
        forall|n: Seq<char>|
            #[trigger] after.has_param(n) <==> before.has_param(n) || exprs[i].uses_param(n),
        forall|n: Seq<char>|
            #[trigger] after.has_ext_param(n) <==> before.has_ext_param(n)
                || exprs[i].uses_ext_param(n),
        forall|n: Seq<char>|
            #[trigger] after.has_preprocessed(n) <==> before.has_preprocessed(n)
                || exprs[i].uses_preprocessed(n),
    ensures
        collects(after, exprs.take(i + 1)),
{
    let (short, long) = (exprs.take(i), exprs.take(i + 1));
    assert(long[i] == exprs[i]);
    assert forall|j: int| 0 <= j < i implies #[trigger] long[j] == short[j] by {}
    assert forall|c: ColumnExpr| #[trigger] after.has_column(c) <==> some_uses_column(long, c) by {
        if some_uses_column(short, c) {
            let j = choose|j: int| 0 <= j < short.len() && (#[trigger] short[j]).uses_column(c);
            assert(long[j].uses_column(c));
        }
        if exprs[i].uses_column(c) {
            assert(long[i].uses_column(c));
        }
        if some_uses_column(long, c) {
            let j = choose|j: int| 0 <= j < long.len() && (#[trigger] long[j]).uses_column(c);
            if j < i {
                assert(short[j].uses_column(c));
            }
        }
        assert(before.has_column(c) <==> some_uses_column(short, c));
    }
    assert forall|n: Seq<char>| #[trigger] after.has_param(n) <==> some_uses_param(long, n) by {
        if some_uses_param(short, n) {
            let j = choose|j: int| 0 <= j < short.len() && (#[trigger] short[j]).uses_param(n);
            assert(long[j].uses_param(n));
        }
        if exprs[i].uses_param(n) {
            assert(long[i].uses_param(n));
        }
        if some_uses_param(long, n) {
            let j = choose|j: int| 0 <= j < long.len() && (#[trigger] long[j]).uses_param(n);
            if j < i {
                assert(short[j].uses_param(n));
            }
        }
        assert(before.has_param(n) <==> some_uses_param(short, n));
    }
    assert forall|n: Seq<char>| #[trigger] after.has_ext_param(n) <==> some_uses_ext_param(
        long,
        n,
    ) by {
        if some_uses_ext_param(short, n) {
            let j = choose|j: int| 0 <= j < short.len() && (#[trigger] short[j]).uses_ext_param(n);
            assert(long[j].uses_ext_param(n));
        }
        if exprs[i].uses_ext_param(n) {
            assert(long[i].uses_ext_param(n));
        }
        if some_uses_ext_param(long, n) {
            let j = choose|j: int| 0 <= j < long.len() && (#[trigger] long[j]).uses_ext_param(n);
            if j < i {
                assert(short[j].uses_ext_param(n));
            }
        }
        assert(before.has_ext_param(n) <==> some_uses_ext_param(short, n));
    }
    assert forall|n: Seq<char>| #[trigger] after.has_preprocessed(n) <==> some_uses_preprocessed(
        long,
        n,
    ) by {
        if some_uses_preprocessed(short, n) {
            let j = choose|j: int|
                0 <= j < short.len() && (#[trigger] short[j]).uses_preprocessed(n);
            assert(long[j].uses_preprocessed(n));
        }
        if exprs[i].uses_preprocessed(n) {
            assert(long[i].uses_preprocessed(n));
        }
        if some_uses_preprocessed(long, n) {
            let j = choose|j: int| 0 <= j < long.len() && (#[trigger] long[j]).uses_preprocessed(n);
            if j < i {
                assert(short[j].uses_preprocessed(n));
            }
        }
        assert(before.has_preprocessed(n) <==> some_uses_preprocessed(short, n));
    }
}

/// The names that are not among others.
fn without(names: &Vec<String>, gone: &Vec<String>) -> (r: Vec<String>)
    ensures
        forall|n: Seq<char>|
            #[trigger] has_name(r@, n) <==> has_name(names@, n) && !has_name(gone@, n),
{
    let mut r: Vec<String> = Vec::new();
    let mut i: usize = 0;
    while i < names.len()
        invariant
            i <= names@.len(),
            forall|j: int| #![trigger r@[j]] 0 <= j < r@.len() ==> has_name(names@, r@[j]@) && !has_name(gone@, r@[j]@),
            forall|j: int|
                0 <= j < i && !has_name(gone@, (#[trigger] names@[j])@) ==> has_name(
                    r@,
                    names@[j]@,
                ),
        decreases names@.len() - i,
    {
        let mut found = false;
        let mut k: usize = 0;
        while k < gone.len()
            invariant
                k <= gone@.len(),
                i < names@.len(),
                found ==> has_name(gone@, names@[i as int]@),
                !found ==> forall|j: int| 0 <= j < k ==> (#[trigger] gone@[j])@ != names@[i as int]@,
            decreases gone@.len() - k,
        {
            if gone[k] == names[i] {
                found = true;
            }
            k += 1;
        }
        let ghost before = r@;
        assert(has_name(names@, names@[i as int]@));
        if !found {
            r.push(names[i].clone());
            assert(r@.last()@ == names@[i as int]@);
            assert(has_name(r@, names@[i as int]@));
        }
        proof {
            assert forall|j: int| 0 <= j < i && !has_name(
                gone@,
                (#[trigger] names@[j])@,
            ) implies has_name(r@, names@[j]@) by {
                let m = choose|m: int|
                    0 <= m < before.len() && (#[trigger] before[m])@ == names@[j]@;
                assert(r@[m] == before[m]);
            }
        }
        i += 1;
    }
    r
}

/// Values with one parameter set.
pub open spec fn with_param(v: Values, name: Seq<char>, x: M31) -> Values {
    Values {
        params: |n: Seq<char>|
            if n == name {
                x
            } else {
                (v.params)(n)
            },
        ..v
    }
}

/// Values with one secure parameter set.
pub open spec fn with_ext_param(v: Values, name: Seq<char>, x: QM31) -> Values {
    Values {
        ext_params: |n: Seq<char>|
            if n == name {
                x
            } else {
                (v.ext_params)(n)
            },
        ..v
    }
}

proof fn lemma_base_bound(e: BaseExpr, a: ExprVarAssignment)
    requires
        forall|c: ColumnExpr| e.uses_column(c) ==> #[trigger] a.column_s(c) is Some,
        forall|n: Seq<char>| e.uses_param(n) ==> #[trigger] a.params.value_of(n) is Some,
        forall|n: Seq<char>|
            e.uses_preprocessed(n) ==> #[trigger] a.preprocessed_cols.value_of(n) is Some,
    ensures
        e.bound_in(a),
    decreases e,
{
    match e {
        BaseExpr::Add(x, y) => {
            lemma_base_bound(*x, a);
            lemma_base_bound(*y, a);
        },
        BaseExpr::Sub(x, y) => {
            lemma_base_bound(*x, a);
            lemma_base_bound(*y, a);
        },
        BaseExpr::Mul(x, y) => {
            lemma_base_bound(*x, a);
            lemma_base_bound(*y, a);
        },
        BaseExpr::Neg(x) => {
            lemma_base_bound(*x, a);
        },
        BaseExpr::Inv(x) => {
            lemma_base_bound(*x, a);
        },
        _ => {},
    }
}

proof fn lemma_ext_bound(e: ExtExpr, a: ExprVarAssignment)
    requires
        forall|c: ColumnExpr| e.uses_column(c) ==> #[trigger] a.column_s(c) is Some,
        forall|n: Seq<char>| e.uses_param(n) ==> #[trigger] a.params.value_of(n) is Some,
        forall|n: Seq<char>| e.uses_ext_param(n) ==> #[trigger] a.ext_params.value_of(n) is Some,
        forall|n: Seq<char>|
            e.uses_preprocessed(n) ==> #[trigger] a.preprocessed_cols.value_of(n) is Some,
    ensures
        e.bound_in(a),
    decreases e,
{
    match e {
        ExtExpr::SecureCol(x, y, z, w) => {
            lemma_base_bound(*x, a);
            lemma_base_bound(*y, a);
            lemma_base_bound(*z, a);
            lemma_base_bound(*w, a);
        },
        ExtExpr::Add(x, y) => {
            lemma_ext_bound(*x, a);
            lemma_ext_bound(*y, a);
        },
        ExtExpr::Sub(x, y) => {
            lemma_ext_bound(*x, a);
            lemma_ext_bound(*y, a);
        },
        ExtExpr::Mul(x, y) => {
            lemma_ext_bound(*x, a);
            lemma_ext_bound(*y, a);
        },
        ExtExpr::Neg(x) => {
            lemma_ext_bound(*x, a);
        },
        _ => {},
    }
}

impl ExprEvaluator {
    /// Values drawn for every variable that is no intermediate.
    pub open spec fn drawn_values(self) -> Values {
        let exprs = self.all_exprs();
        Values {
            columns: |c: ColumnExpr|
                or_zero(
                    some_if(
                        some_uses_column(exprs, c),
                        drawn_base(name_words(0, TAG_COLUMN, c.text())),
                    ),
                ),
            preprocessed: |n: Seq<char>|
                or_zero(
                    some_if(
                        some_uses_preprocessed(exprs, n),
                        drawn_base(name_words(0, TAG_PREPROCESSED, n)),
                    ),
                ),
            params: |n: Seq<char>|
                or_zero(
                    some_if(
                        some_uses_param(exprs, n) && !has_name(self.ordered@, n),
                        drawn_base(name_words(0, TAG_PARAM, n)),
                    ),
                ),
            ext_params: |n: Seq<char>|
                or_zero(
                    some_if(
                        some_uses_ext_param(exprs, n) && !has_name(self.ordered@, n),
                        drawn_ext(name_words(0, TAG_EXT_PARAM, n)),
                    ),
                ),
        }
    }

    /// The values after the first `k` intermediates have theirs.
    pub open spec fn staged(self, k: nat) -> Values
        decreases k,
    {
        if k == 0 {
            self.drawn_values()
        } else {
            let before = self.staged((k - 1) as nat);
            let name = self.ordered@[k - 1]@;
            match self.intermediates.value_of(name) {
                Some(e) => with_param(before, name, e.value_s(before)),
                None => with_ext_param(
                    before,
                    name,
                    self.ext_intermediates.value_of(name)->Some_0.value_s(before),
                ),
            }
        }
    }

    /// Each intermediate uses only intermediates before it, and each by its kind.
    pub open spec fn in_dependency_order(self) -> bool {
        &&& forall|k: int, n: Seq<char>|
            0 <= k < self.ordered@.len() && #[trigger] self.expr_at(k).uses_param(n) && has_name(
                self.ordered@,
                n,
            ) ==> has_name(self.ordered@.take(k), n) && self.intermediates.value_of(n) is Some
        &&& forall|k: int, n: Seq<char>|
            0 <= k < self.ordered@.len() && #[trigger] self.expr_at(k).uses_ext_param(n)
                && has_name(self.ordered@, n) ==> has_name(self.ordered@.take(k), n)
                && self.ext_intermediates.value_of(n) is Some
    }

    /// No intermediate inverts zero under the drawn values.
    pub open spec fn drawable(self) -> bool {
        forall|k: int|
            0 <= k < self.ordered@.len() ==> (#[trigger] self.expr_at(k)).invertible(
                self.staged(k as nat),
            )
    }

    /// The variables of the constraints and the intermediates, without the intermediates.
    pub fn collect_variables(&self) -> (r: ExprVariables)
        requires
            self.wf(),
        ensures
            forall|c: ColumnExpr|
                #[trigger] r.has_column(c) <==> some_uses_column(self.all_exprs(), c),
            forall|n: Seq<char>|
                #[trigger] r.has_param(n) <==> some_uses_param(self.all_exprs(), n) && !has_name(
                    self.ordered@,
                    n,
                ),
            forall|n: Seq<char>|
                #[trigger] r.has_ext_param(n) <==> some_uses_ext_param(self.all_exprs(), n)
                    && !has_name(self.ordered@, n),
            forall|n: Seq<char>|
                #[trigger] r.has_preprocessed(n) <==> some_uses_preprocessed(self.all_exprs(), n),
    {
        let ghost exprs = self.all_exprs();
        let mut vars = ExprVariables::new();
        let m = self.constraints.len();
        let n = self.ordered.len();
        let mut i: usize = 0;
        while i < m
            invariant
                i <= m == self.constraints@.len(),
                exprs == self.all_exprs(),
                collects(vars, exprs.take(i as int)),
            decreases m - i,
        {
            let ghost before = vars;
            assert(exprs[i as int] == self.constraints@[i as int]);
            vars.add_ext(&self.constraints[i]);
            proof {
                lemma_collects_step(before, vars, exprs, i as int);
            }
            i += 1;
        }
        let mut k: usize = 0;
        while k < n
            invariant
                k <= n == self.ordered@.len(),
                m == self.constraints@.len(),
                self.wf(),
                exprs == self.all_exprs(),
                collects(vars, exprs.take(m + k)),
            decreases n - k,
        {
            let ghost before = vars;
            let name = &self.ordered[k];
            assert(exprs[m + k] == self.expr_at(k as int));
            assert(self.intermediates.value_of(self.ordered@[k as int]@) is Some
                || self.ext_intermediates.value_of(self.ordered@[k as int]@) is Some);
            match self.intermediates.get(name) {
                Some(e) => {
                    vars.add_base(e);
                },
                None => match self.ext_intermediates.get(name) {
                    Some(e) => {
                        vars.add_ext(e);
                    },
                    None => {},
                },
            }
            proof {
                lemma_collects_step(before, vars, exprs, m + k);
            }
            k += 1;
        }
        assert(exprs.take(m + n) =~= exprs);
        let params = without(&vars.params, &self.ordered);
        let ext_params = without(&vars.ext_params, &self.ordered);
        let ghost all = vars;
        let r = ExprVariables {
            cols: vars.cols,
            params,
            ext_params,
            preprocessed_cols: vars.preprocessed_cols,
        };
        proof {
            assert forall|c: ColumnExpr| #[trigger] r.has_column(c) <==> some_uses_column(
                exprs,
                c,
            ) by {
                assert(r.has_column(c) == all.has_column(c));
            }
            assert forall|n: Seq<char>| #[trigger] r.has_preprocessed(
                n,
            ) <==> some_uses_preprocessed(exprs, n) by {
                assert(r.has_preprocessed(n) == all.has_preprocessed(n));
            }
            assert forall|n: Seq<char>| #[trigger] r.has_param(n) <==> some_uses_param(exprs, n)
                && !has_name(self.ordered@, n) by {
                assert(all.has_param(n) <==> some_uses_param(exprs, n));
            }
            assert forall|n: Seq<char>| #[trigger] r.has_ext_param(n) <==> some_uses_ext_param(
                exprs,
                n,
            ) && !has_name(self.ordered@, n) by {
                assert(all.has_ext_param(n) <==> some_uses_ext_param(exprs, n));
            }
        }
        r
    }

    /// A value for every variable, the intermediates included, where each intermediate has the
    /// value of what it stands for.
    pub fn random_assignment(&self) -> (r: ExprVarAssignment)
        requires
            self.wf(),
            self.in_dependency_order(),
            self.drawable(),
        ensures
            r.values() == self.staged(self.ordered@.len()),
            forall|c: ColumnExpr|
                #[trigger] r.column_s(c) is Some <==> some_uses_column(self.all_exprs(), c),
            forall|n: Seq<char>|
                #[trigger] r.preprocessed_cols.value_of(n) is Some <==> some_uses_preprocessed(
                    self.all_exprs(),
                    n,
                ),
            forall|n: Seq<char>|
                #[trigger] r.params.value_of(n) is Some <==> if has_name(self.ordered@, n) {
                    self.intermediates.value_of(n) is Some
                } else {
                    some_uses_param(self.all_exprs(), n)
                },
            forall|n: Seq<char>|
                #[trigger] r.ext_params.value_of(n) is Some <==> if has_name(self.ordered@, n) {
                    self.intermediates.value_of(n) is None
                } else {
                    some_uses_ext_param(self.all_exprs(), n)
                },
            forall|k: int|
                0 <= k < self.ordered@.len() ==> match self.intermediates.value_of(
                    (#[trigger] self.ordered@[k])@,
                ) {
                    Some(e) => r.params.value_of(self.ordered@[k]@) == Some(e.value_s(r.values())),
                    None => r.ext_params.value_of(self.ordered@[k]@) == Some(
                        self.expr_at(k).value_s(r.values()),
                    ),
                },
    {
        let vars = self.collect_variables();
        let mut a = vars.random_assignment(0);
        let ghost exprs = self.all_exprs();
        proof {
            let (x, y) = (a.values(), self.drawn_values());
            assert(x.columns =~= y.columns);
            assert(x.preprocessed =~= y.preprocessed);
            assert(x.params =~= y.params);
            assert(x.ext_params =~= y.ext_params);
            assert(self.ordered@.take(0) =~= Seq::empty());
        }
        let n = self.ordered.len();
        let mut k: usize = 0;
        while k < n
            invariant
                k <= n == self.ordered@.len(),
                self.wf(),
                self.in_dependency_order(),
                self.drawable(),
                exprs == self.all_exprs(),
                a.values() == self.staged(k as nat),
                forall|c: ColumnExpr|
                    #[trigger] a.column_s(c) is Some <==> some_uses_column(exprs, c),
                forall|n: Seq<char>|
                    #[trigger] a.preprocessed_cols.value_of(n) is Some <==> some_uses_preprocessed(
                        exprs,
                        n,
                    ),
                forall|n: Seq<char>|
                    #[trigger] a.params.value_of(n) is Some <==> if has_name(self.ordered@, n) {
                        has_name(self.ordered@.take(k as int), n) && self.intermediates.value_of(
                            n,
                        ) is Some
                    } else {
                        some_uses_param(exprs, n)
                    },
                forall|n: Seq<char>|
                    #[trigger] a.ext_params.value_of(n) is Some <==> if has_name(self.ordered@, n) {
                        has_name(self.ordered@.take(k as int), n) && self.intermediates.value_of(
                            n,
                        ) is None
                    } else {
                        some_uses_ext_param(exprs, n)
                    },
            decreases n - k,
        {
            let ghost before = a;
            let name = &self.ordered[k];
            let ghost e_k = self.expr_at(k as int);
            let ghost index = self.constraints@.len() + k;
            proof {
                assert(exprs[index] == e_k);
                assert(e_k.invertible(self.staged(k as nat)));
                assert forall|c: ColumnExpr| e_k.uses_column(c) implies #[trigger] a.column_s(
                    c,
                ) is Some by {
                    assert(exprs[index].uses_column(c));
                }
                assert forall|n: Seq<char>| e_k.uses_preprocessed(n) implies #[trigger] a.preprocessed_cols.value_of(
                    n,
                ) is Some by {
                    assert(exprs[index].uses_preprocessed(n));
                }
                assert forall|n: Seq<char>| e_k.uses_param(n) implies #[trigger] a.params.value_of(
                    n,
                ) is Some by {
                    assert(exprs[index].uses_param(n));
                    assert(self.expr_at(k as int).uses_param(n));
                }
                assert forall|n: Seq<char>| e_k.uses_ext_param(n) implies #[trigger] a.ext_params.value_of(
                    n,
                ) is Some by {
                    assert(exprs[index].uses_ext_param(n));
                    assert(self.expr_at(k as int).uses_ext_param(n));
                    if has_name(self.ordered@, n) {
                        assert(self.ext_intermediates.value_of(n) is Some);
                        if self.intermediates.value_of(n) is Some {
                            assert(self.ext_intermediates.value_of(n) is None);
                        }
                    }
                }
                lemma_ext_bound(e_k, a);
                assert(self.intermediates.value_of(self.ordered@[k as int]@) is Some
                    || self.ext_intermediates.value_of(self.ordered@[k as int]@) is Some);
                assert(has_name(self.ordered@, name@));
            }
            match self.intermediates.get(name) {
                Some(e) => {
                    let x = e.assign(&a);
                    a.params.insert(name.clone(), x);
                    proof {
                        let staged = self.staged((k + 1) as nat);
                        assert(a.values().params =~= staged.params);
                        assert(a.values().columns =~= staged.columns);
                        assert(a.values().ext_params =~= staged.ext_params);
                        assert(a.values().preprocessed =~= staged.preprocessed);
                    }
                },
                None => match self.ext_intermediates.get(name) {
                    Some(e) => {
                        let x = e.assign(&a);
                        a.ext_params.insert(name.clone(), x);
                        proof {
                            let staged = self.staged((k + 1) as nat);
                            assert(a.values().params =~= staged.params);
                            assert(a.values().columns =~= staged.columns);
                            assert(a.values().ext_params =~= staged.ext_params);
                            assert(a.values().preprocessed =~= staged.preprocessed);
                        }
                    },
                    None => {},
                },
            }
            proof {
                assert forall|n: Seq<char>| #[trigger] has_name(self.ordered@.take(k + 1), n)
                    <==> has_name(self.ordered@.take(k as int), n) || n == name@ by {
                    let (short, long) = (self.ordered@.take(k as int), self.ordered@.take(k + 1));
                    assert(long[k as int]@ == name@);
                    if has_name(short, n) {
                        let j = choose|j: int| 0 <= j < short.len() && (#[trigger] short[j])@ == n;
                        assert(long[j]@ == n);
                    }
                    if has_name(long, n) {
                        let j = choose|j: int| 0 <= j < long.len() && (#[trigger] long[j])@ == n;
                        if j < k {
                            assert(short[j]@ == n);
                        }
                    }
                }
                assert forall|c: ColumnExpr| #[trigger] a.column_s(c) is Some
                    <==> some_uses_column(exprs, c) by {
                    assert(a.column_s(c) == before.column_s(c));
                }
            }
            k += 1;
        }
        assert(self.ordered@.take(n as int) =~= self.ordered@);
        proof {
            let last = a.values();
            assert forall|k: int| 0 <= k < self.ordered@.len() implies match self.intermediates.value_of(
                (#[trigger] self.ordered@[k])@,
            ) {
                Some(e) => a.params.value_of(self.ordered@[k]@) == Some(e.value_s(last)),
                None => a.ext_params.value_of(self.ordered@[k]@) == Some(
                    self.expr_at(k).value_s(last),
                ),
            } by {
                let name = self.ordered@[k]@;
                assert(has_name(self.ordered@, name));
                self.lemma_intermediate_value(k);
                assert((last.params)(name) == or_zero(a.params.value_of(name)));
                assert((last.ext_params)(name) == or_zero(a.ext_params.value_of(name)));
            }
        }
        a
    }
}

/// Which offsets of which columns a component reads, interaction by interaction.
pub struct InfoEvaluator {
    pub mask_offsets: Vec<Vec<Vec<isize>>>,
}

impl InfoEvaluator {
    pub fn empty() -> (r: InfoEvaluator)
        ensures
            r.mask_offsets@.len() == 4,
            forall|i: int| 0 <= i < 4 ==> (#[trigger] r.mask_offsets@[i])@.len() == 0,
    {
        InfoEvaluator { mask_offsets: vec![Vec::new(), Vec::new(), Vec::new(), Vec::new()] }
    }

    /// Records the offsets at which the next column of an interaction is read.
    pub fn next_interaction_mask(&mut self, interaction: usize, offsets: &[isize])
        requires
            interaction < old(self).mask_offsets@.len(),
        ensures
            final(self).mask_offsets@.len() == old(self).mask_offsets@.len(),
            forall|i: int|
                0 <= i < old(self).mask_offsets@.len() && i != interaction
                    ==> #[trigger] final(self).mask_offsets@[i] == old(self).mask_offsets@[i],
            final(self).mask_offsets@[interaction as int]@.len() == old(
                self).mask_offsets@[interaction as int]@.len() + 1,
            final(self).mask_offsets@[interaction as int]@.drop_last() == old(
                self).mask_offsets@[interaction as int]@,
            final(self).mask_offsets@[interaction as int]@.last()@ == offsets@,
    {
        let mut column: Vec<isize> = Vec::new();
        let mut i: usize = 0;
        while i < offsets.len()
            invariant
                i <= offsets@.len(),
                column@ == offsets@.take(i as int),
            decreases offsets@.len() - i,
        {
            column.push(offsets[i]);
            i += 1;
            assert(column@ =~= offsets@.take(i as int));
        }
        assert(offsets@.take(i as int) =~= offsets@);
        let ghost before = self.mask_offsets@;
        let mut columns: Vec<Vec<isize>> = Vec::new();
        self.mask_offsets.set_and_swap(interaction, &mut columns);
        columns.push(column);
        self.mask_offsets.set(interaction, columns);
        assert(self.mask_offsets@[interaction as int]@.drop_last()
            =~= before[interaction as int]@);
    }
}

} // verus!
