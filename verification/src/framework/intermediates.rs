//! Intermediates stand in the order of their dependencies, and are worth what they stand for.

use vstd::prelude::*;

use crate::framework::evaluator::{
    intermediate_name, is_alpha, is_combination, is_weighted, ExprEvaluator,
};
use crate::framework::expr::{BaseExpr, ColumnExpr, ExtExpr, Values};
use crate::framework::names::{decimal_s, digit_s, lemma_decimal_injective};
use crate::framework::variables::has_name;

verus! {

/// The names that intermediates are given.
pub open spec fn is_reserved(n: Seq<char>) -> bool {
    exists|k: nat| n == #[trigger] intermediate_name(k)
}

/// Different intermediates have different names.
pub proof fn lemma_intermediate_name_injective(a: nat, b: nat)
    requires
        intermediate_name(a) == intermediate_name(b),
    ensures
        a == b,
{
    let prefix = "intermediate"@;
    let (x, y) = (intermediate_name(a), intermediate_name(b));
    assert(x.subrange(prefix.len() as int, x.len() as int) =~= decimal_s(a));
    assert(y.subrange(prefix.len() as int, y.len() as int) =~= decimal_s(b));
    lemma_decimal_injective(a, b);
}

impl ExprEvaluator {
    /// Of the reserved names an expression uses only those of the first `k` intermediates, and
    /// each by its kind.
    pub open spec fn knows(self, e: ExtExpr, k: int) -> bool {
        &&& forall|n: Seq<char>| #[trigger]
            e.uses_param(n) && is_reserved(n) ==> has_name(self.ordered@.take(k), n)
                && self.intermediates.value_of(n) is Some
        &&& forall|n: Seq<char>| #[trigger]
            e.uses_ext_param(n) && is_reserved(n) ==> has_name(self.ordered@.take(k), n)
                && self.ext_intermediates.value_of(n) is Some
    }

    /// Of the reserved names an expression uses only those given so far.
    pub open spec fn knows_names(self, e: ExtExpr) -> bool {
        self.knows(e, self.ordered@.len() as int)
    }

    /// Every intermediate uses only intermediates before it.
    pub open spec fn orderly(self) -> bool {
        forall|k: int| 0 <= k < self.ordered@.len() ==> self.knows(#[trigger] self.expr_at(k), k)
    }

    /// A name given to an expression that uses only names given before keeps the order.
    pub proof fn lemma_orderly_grows(self, before: ExprEvaluator, name: String, e: ExtExpr)
        requires
            before.wf(),
            before.orderly(),
            before.knows_names(e),
            self.ordered@ == before.ordered@.push(name),
            name@ == intermediate_name(before.ordered@.len()),
            forall|n: Seq<char>|
                n != name@ ==> #[trigger] self.intermediates.value_of(n)
                    == before.intermediates.value_of(n),
            forall|n: Seq<char>|
                n != name@ ==> #[trigger] self.ext_intermediates.value_of(n)
                    == before.ext_intermediates.value_of(n),
            self.expr_at(before.ordered@.len() as int) == e,
        ensures
            self.orderly(),
    {
        let m = before.ordered@.len() as int;
        assert forall|k: int| 0 <= k < self.ordered@.len() implies self.knows(
            #[trigger] self.expr_at(k),
            k,
        ) by {
            let x = self.expr_at(k);
            assert(self.ordered@.take(k) =~= before.ordered@.take(k));
            if k < m {
                assert(self.ordered@[k] == before.ordered@[k]);
                assert(before.ordered@[k]@ == intermediate_name(k as nat));
                if before.ordered@[k]@ == name@ {
                    lemma_intermediate_name_injective(k as nat, m as nat);
                }
                assert(x == before.expr_at(k));
            }
            assert(before.knows(x, k));
            assert forall|n: Seq<char>| has_name(before.ordered@.take(k), n) implies n
                != name@ by {
                let j = choose|j: int|
                    0 <= j < k && (#[trigger] before.ordered@.take(k)[j])@ == n;
                assert(before.ordered@[j]@ == intermediate_name(j as nat));
                if n == name@ {
                    lemma_intermediate_name_injective(j as nat, m as nat);
                }
            }
        }
    }

    /// A step that names no intermediate keeps the order.
    pub proof fn lemma_orderly_same(self, before: ExprEvaluator)
        requires
            before.orderly(),
            self.ordered@ == before.ordered@,
            self.intermediates == before.intermediates,
            self.ext_intermediates == before.ext_intermediates,
        ensures
            self.orderly(),
    {
        assert forall|k: int| 0 <= k < self.ordered@.len() implies self.knows(
            #[trigger] self.expr_at(k),
            k,
        ) by {
            assert(self.expr_at(k) == before.expr_at(k));
            assert(before.knows(before.expr_at(k), k));
        }
    }

    /// The names of the intermediates are distinct, each names an expression of one kind, and no
    /// intermediate mentions itself or a later one.
    pub proof fn lemma_dependency_order(self, i: int, j: int)
        requires
            self.wf(),
            self.orderly(),
            0 <= i < self.ordered@.len(),
            0 <= j < self.ordered@.len(),
        ensures
            self.in_dependency_order(),
            self.ordered@[i]@ == self.ordered@[j]@ ==> i == j,
            self.intermediates.value_of(self.ordered@[i]@) is Some
                <==> self.ext_intermediates.value_of(self.ordered@[i]@) is None,
            i <= j ==> !self.expr_at(i).uses_param(self.ordered@[j]@)
                && !self.expr_at(i).uses_ext_param(self.ordered@[j]@),
    {
        self.lemma_in_order();
        assert(self.ordered@[i]@ == intermediate_name(i as nat));
        assert(self.ordered@[j]@ == intermediate_name(j as nat));
        if self.ordered@[i]@ == self.ordered@[j]@ {
            lemma_intermediate_name_injective(i as nat, j as nat);
        }
        assert(self.knows(self.expr_at(i), i));
        let n = self.ordered@[j]@;
        assert(is_reserved(n));
        if i <= j && has_name(self.ordered@.take(i), n) {
            let l = choose|l: int| 0 <= l < i && (#[trigger] self.ordered@.take(i)[l])@ == n;
            assert(self.ordered@[l]@ == intermediate_name(l as nat));
            lemma_intermediate_name_injective(l as nat, j as nat);
        }
    }

    /// Orderly intermediates stand in the order of their dependencies.
    pub proof fn lemma_in_order(self)
        requires
            self.wf(),
            self.orderly(),
        ensures
            self.in_dependency_order(),
    {
        assert forall|n: Seq<char>| has_name(self.ordered@, n) implies is_reserved(n) by {
            let j = choose|j: int|
                0 <= j < self.ordered@.len() && (#[trigger] self.ordered@[j])@ == n;
            assert(self.ordered@[j]@ == intermediate_name(j as nat));
        }
        assert forall|k: int, n: Seq<char>|
            0 <= k < self.ordered@.len() && #[trigger] self.expr_at(k).uses_param(n) && has_name(
                self.ordered@,
                n,
            ) implies has_name(self.ordered@.take(k), n) && self.intermediates.value_of(
            n,
        ) is Some by {
            assert(self.knows(self.expr_at(k), k));
        }
        assert forall|k: int, n: Seq<char>|
            0 <= k < self.ordered@.len() && #[trigger] self.expr_at(k).uses_ext_param(n)
                && has_name(self.ordered@, n) implies has_name(self.ordered@.take(k), n)
            && self.ext_intermediates.value_of(n) is Some by {
            assert(self.knows(self.expr_at(k), k));
        }
    }
}

// ---------------------------------------------------------------------------------------------
// Combinations of relations.

/// A digit is no underscore.
proof fn lemma_digit_text(d: nat)
    ensures
        digit_s(d).len() == 1,
        digit_s(d)[0] != '_',
{
    reveal_strlit("0");
    reveal_strlit("1");
    reveal_strlit("2");
    reveal_strlit("3");
    reveal_strlit("4");
    reveal_strlit("5");
    reveal_strlit("6");
    reveal_strlit("7");
    reveal_strlit("8");
    reveal_strlit("9");
}

/// A number is written without underscores.
pub proof fn lemma_decimal_text(n: nat, i: int)
    requires
        0 <= i < decimal_s(n).len(),
    ensures
        decimal_s(n)[i] != '_',
    decreases n,
{
    if n < 10 {
        lemma_digit_text(n);
    } else {
        lemma_digit_text(n % 10);
        let head = decimal_s(n / 10);
        if i < head.len() {
            lemma_decimal_text(n / 10, i);
        }
    }
}

/// A name with an underscore is not reserved.
proof fn lemma_underscore(n: Seq<char>, at: int)
    requires
        0 <= at < n.len(),
        n[at] == '_',
    ensures
        !is_reserved(n),
{
    reveal_strlit("intermediate");
    if is_reserved(n) {
        let k = choose|k: nat| n == #[trigger] intermediate_name(k);
        if at >= "intermediate"@.len() {
            lemma_decimal_text(k, at - "intermediate"@.len());
            assert(intermediate_name(k)[at] == decimal_s(k)[at - "intermediate"@.len()]);
        }
    }
}

/// The parameters of a weighted sum are those of its values and the relation's own.
proof fn lemma_weighted_uses(
    e: ExtExpr,
    relation: Seq<char>,
    values: Seq<BaseExpr>,
    n: nat,
    name: Seq<char>,
)
    requires
        is_weighted(e, relation, values, n),
        n <= values.len(),
        is_reserved(name),
    ensures
        e.uses_param(name) ==> exists|i: int|
            0 <= i < n && (#[trigger] values[i]).uses_param(name),
        !e.uses_ext_param(name),
    decreases n,
{
    if n > 0 {
        let a = *(e->Add_0);
        let b = *(e->Add_1);
        lemma_weighted_uses(a, relation, values, (n - 1) as nat, name);
        let p = *(b->Mul_0);
        let v = *(b->Mul_1);
        assert(is_alpha(p, relation, n - 1));
        reveal_strlit("_alpha");
        let alpha = p->Param_0@;
        assert(alpha[relation.len() as int] == '_');
        lemma_underscore(alpha, relation.len() as int);
        reveal_with_fuel(ExtExpr::uses_param, 3);
        reveal_with_fuel(ExtExpr::uses_ext_param, 3);
        reveal_with_fuel(BaseExpr::uses_param, 2);
        if e.uses_param(name) && !a.uses_param(name) {
            assert(values[n - 1].uses_param(name));
        }
    }
}

/// The combination of values uses no reserved name that the values do not.
pub proof fn lemma_combination_known(
    state: ExprEvaluator,
    e: ExtExpr,
    relation: Seq<char>,
    values: Seq<BaseExpr>,
)
    requires
        is_combination(e, relation, values),
        forall|i: int|
            0 <= i < values.len() ==> state.knows_names(
                ExtExpr::from_base_s(#[trigger] values[i]),
            ),
    ensures
        state.knows_names(e),
{
    let a = *(e->Sub_0);
    let b = *(e->Sub_1);
    reveal_with_fuel(ExtExpr::uses_param, 2);
    reveal_with_fuel(ExtExpr::uses_ext_param, 2);
    reveal_strlit("_z");
    let z = b->Param_0@;
    assert(z[relation.len() as int] == '_');
    lemma_underscore(z, relation.len() as int);
    assert forall|n: Seq<char>| #[trigger] e.uses_param(n) && is_reserved(n) implies has_name(
        state.ordered@.take(state.ordered@.len() as int),
        n,
    ) && state.intermediates.value_of(n) is Some by {
        lemma_weighted_uses(a, relation, values, values.len(), n);
        let i = choose|i: int| 0 <= i < values.len() && (#[trigger] values[i]).uses_param(n);
        let x = ExtExpr::from_base_s(values[i]);
        assert(state.knows_names(x));
        assert(x.uses_param(n));
    }
    assert forall|n: Seq<char>| #[trigger] e.uses_ext_param(n) && is_reserved(n) implies has_name(
        state.ordered@.take(state.ordered@.len() as int),
        n,
    ) && state.ext_intermediates.value_of(n) is Some by {
        lemma_weighted_uses(a, relation, values, values.len(), n);
    }
}

// ---------------------------------------------------------------------------------------------
// Values.

/// Values that agree on the variables of a base expression.
pub open spec fn base_agree(e: BaseExpr, v: Values, w: Values) -> bool {
    &&& forall|c: ColumnExpr| #[trigger] e.uses_column(c) ==> (v.columns)(c) == (w.columns)(c)
    &&& forall|n: Seq<char>| #[trigger]
        e.uses_preprocessed(n) ==> (v.preprocessed)(n) == (w.preprocessed)(n)
    &&& forall|n: Seq<char>| #[trigger] e.uses_param(n) ==> (v.params)(n) == (w.params)(n)
}

/// Values that agree on the variables of an expression.
pub open spec fn ext_agree(e: ExtExpr, v: Values, w: Values) -> bool {
    &&& forall|c: ColumnExpr| #[trigger] e.uses_column(c) ==> (v.columns)(c) == (w.columns)(c)
    &&& forall|n: Seq<char>| #[trigger]
        e.uses_preprocessed(n) ==> (v.preprocessed)(n) == (w.preprocessed)(n)
    &&& forall|n: Seq<char>| #[trigger] e.uses_param(n) ==> (v.params)(n) == (w.params)(n)
    &&& forall|n: Seq<char>| #[trigger]
        e.uses_ext_param(n) ==> (v.ext_params)(n) == (w.ext_params)(n)
}

proof fn lemma_base_part(e: BaseExpr, a: BaseExpr, v: Values, w: Values)
    requires
        base_agree(e, v, w),
        forall|c: ColumnExpr| #[trigger] a.uses_column(c) ==> e.uses_column(c),
        forall|n: Seq<char>| #[trigger] a.uses_preprocessed(n) ==> e.uses_preprocessed(n),
        forall|n: Seq<char>| #[trigger] a.uses_param(n) ==> e.uses_param(n),
        decreases_to!(e => a),
    ensures
        a.value_s(v) == a.value_s(w),
    decreases e, 0int,
{
    lemma_base_same_value(a, v, w);
}

/// A base expression is worth the same under values that agree on its variables.
pub proof fn lemma_base_same_value(e: BaseExpr, v: Values, w: Values)
    requires
        base_agree(e, v, w),
    ensures
        e.value_s(v) == e.value_s(w),
    decreases e,
{
    match e {
        BaseExpr::Col(c) => {
            assert(e.uses_column(c));
        },
        BaseExpr::PreprocessedColumn(p) => {
            assert(e.uses_preprocessed(p.id.id@));
        },
        BaseExpr::Const(_) => {},
        BaseExpr::Param(name) => {
            assert(e.uses_param(name@));
        },
        BaseExpr::Add(a, b) => {
            lemma_base_part(e, *a, v, w);
            lemma_base_part(e, *b, v, w);
        },
        BaseExpr::Sub(a, b) => {
            lemma_base_part(e, *a, v, w);
            lemma_base_part(e, *b, v, w);
        },
        BaseExpr::Mul(a, b) => {
            lemma_base_part(e, *a, v, w);
            lemma_base_part(e, *b, v, w);
        },
        BaseExpr::Neg(a) => {
            lemma_base_part(e, *a, v, w);
        },
        BaseExpr::Inv(a) => {
            lemma_base_part(e, *a, v, w);
        },
    }
}

proof fn lemma_coordinate_part(e: ExtExpr, a: BaseExpr, v: Values, w: Values)
    requires
        ext_agree(e, v, w),
        forall|c: ColumnExpr| #[trigger] a.uses_column(c) ==> e.uses_column(c),
        forall|n: Seq<char>| #[trigger] a.uses_preprocessed(n) ==> e.uses_preprocessed(n),
        forall|n: Seq<char>| #[trigger] a.uses_param(n) ==> e.uses_param(n),
    ensures
        a.value_s(v) == a.value_s(w),
{
    lemma_base_same_value(a, v, w);
}

proof fn lemma_parts_same_value(e: ExtExpr, a: ExtExpr, b: ExtExpr, v: Values, w: Values)
    requires
        ext_agree(e, v, w),
        forall|c: ColumnExpr| #[trigger] a.uses_column(c) ==> e.uses_column(c),
        forall|c: ColumnExpr| #[trigger] b.uses_column(c) ==> e.uses_column(c),
        forall|n: Seq<char>| #[trigger] a.uses_preprocessed(n) ==> e.uses_preprocessed(n),
        forall|n: Seq<char>| #[trigger] b.uses_preprocessed(n) ==> e.uses_preprocessed(n),
        forall|n: Seq<char>| #[trigger] a.uses_param(n) ==> e.uses_param(n),
        forall|n: Seq<char>| #[trigger] b.uses_param(n) ==> e.uses_param(n),
        forall|n: Seq<char>| #[trigger] a.uses_ext_param(n) ==> e.uses_ext_param(n),
        forall|n: Seq<char>| #[trigger] b.uses_ext_param(n) ==> e.uses_ext_param(n),
        decreases_to!(e => a),
        decreases_to!(e => b),
    ensures
        a.value_s(v) == a.value_s(w),
        b.value_s(v) == b.value_s(w),
    decreases e, 0int,
{
    lemma_ext_same_value(a, v, w);
    lemma_ext_same_value(b, v, w);
}

/// An expression is worth the same under values that agree on its variables.
pub proof fn lemma_ext_same_value(e: ExtExpr, v: Values, w: Values)
    requires
        ext_agree(e, v, w),
    ensures
        e.value_s(v) == e.value_s(w),
    decreases e,
{
    match e {
        ExtExpr::SecureCol(a, b, c, d) => {
            lemma_coordinate_part(e, *a, v, w);
            lemma_coordinate_part(e, *b, v, w);
            lemma_coordinate_part(e, *c, v, w);
            lemma_coordinate_part(e, *d, v, w);
        },
        ExtExpr::Const(_) => {},
        ExtExpr::Param(name) => {
            assert(e.uses_ext_param(name@));
        },
        ExtExpr::Add(a, b) => {
            lemma_parts_same_value(e, *a, *b, v, w);
        },
        ExtExpr::Sub(a, b) => {
            lemma_parts_same_value(e, *a, *b, v, w);
        },
        ExtExpr::Mul(a, b) => {
            lemma_parts_same_value(e, *a, *b, v, w);
        },
        ExtExpr::Neg(a) => {
            lemma_parts_same_value(e, *a, *a, v, w);
        },
    }
}

impl ExprEvaluator {
    /// Later stages change only the values of later intermediates.
    proof fn lemma_stages_agree(self, k: int, j: int)
        requires
            self.wf(),
            0 <= k <= j <= self.ordered@.len(),
        ensures
            self.staged(j as nat).columns == self.staged(k as nat).columns,
            self.staged(j as nat).preprocessed == self.staged(k as nat).preprocessed,
            forall|n: Seq<char>|
                (!has_name(self.ordered@, n) || has_name(self.ordered@.take(k), n)) ==> (self.staged(
                    j as nat,
                ).params)(n) == (#[trigger] (self.staged(k as nat).params)(n)),
            forall|n: Seq<char>|
                (!has_name(self.ordered@, n) || has_name(self.ordered@.take(k), n)) ==> (self.staged(
                    j as nat,
                ).ext_params)(n) == (#[trigger] (self.staged(k as nat).ext_params)(n)),
        decreases j - k,
    {
        if k < j {
            self.lemma_stages_agree(k, j - 1);
            let name = self.ordered@[j - 1]@;
            assert(has_name(self.ordered@, name));
            assert(name == intermediate_name((j - 1) as nat));
            if has_name(self.ordered@.take(k), name) {
                let l = choose|l: int|
                    0 <= l < k && (#[trigger] self.ordered@.take(k)[l])@ == name;
                assert(self.ordered@[l]@ == intermediate_name(l as nat));
                lemma_intermediate_name_injective(l as nat, (j - 1) as nat);
            }
        }
    }

    /// Under the final values every intermediate is worth what its expression is.
    pub proof fn lemma_intermediate_value(self, k: int)
        requires
            self.wf(),
            self.in_dependency_order(),
            0 <= k < self.ordered@.len(),
        ensures
            ({
                let last = self.staged(self.ordered@.len());
                let name = self.ordered@[k]@;
                match self.intermediates.value_of(name) {
                    Some(e) => (last.params)(name) == e.value_s(last),
                    None => (last.ext_params)(name) == self.expr_at(k).value_s(last),
                }
            }),
    {
        let n = self.ordered@.len() as int;
        let (now, next, last) = (
            self.staged(k as nat),
            self.staged((k + 1) as nat),
            self.staged(n as nat),
        );
        let name = self.ordered@[k]@;
        self.lemma_stages_agree(k, n);
        self.lemma_stages_agree(k + 1, n);
        assert(self.ordered@.take(k + 1)[k]@ == name);
        assert(has_name(self.ordered@.take(k + 1), name));
        let x = self.expr_at(k);
        assert forall|m: Seq<char>| #[trigger] x.uses_param(m) implies (last.params)(m) == (
        now.params)(m) by {
            assert(self.expr_at(k).uses_param(m));
        }
        assert forall|m: Seq<char>| #[trigger] x.uses_ext_param(m) implies (last.ext_params)(m)
            == (now.ext_params)(m) by {
            assert(self.expr_at(k).uses_ext_param(m));
        }
        match self.intermediates.value_of(name) {
            Some(e) => {
                assert forall|m: Seq<char>| #[trigger] e.uses_param(m) implies (last.params)(m)
                    == (now.params)(m) by {
                    assert(x.uses_param(m));
                }
                lemma_base_same_value(e, last, now);
                assert((next.params)(name) == e.value_s(now));
            },
            None => {
                lemma_ext_same_value(x, last, now);
                assert((next.ext_params)(name) == x.value_s(now));
            },
        }
    }
}

} // verus!
