//! Degree bounds are what they say: the largest degree of a term, and a bound on the degree of what
//! an expression is worth.

use vstd::prelude::*;

use super::degree::{max_of, NamedExprs};
use super::evaluator::{intermediate_name, ExprEvaluator};
use super::expr::{BaseExpr, ColumnExpr, ExtExpr, Values};
use super::intermediates::is_reserved;
use super::polynomials::{
    embedded_at, is_polynomial, itself, lemma_constant, lemma_difference, lemma_from_coordinates,
    lemma_is_constant, lemma_opposite, lemma_product, lemma_raised, lemma_same_function, lemma_sum,
};
use super::variables::has_name;
use crate::fields::m31::M31;
use crate::fields::qm31::QM31;
use crate::fields::{inv_of, lemma_inv_exists, lemma_inverse_unique, Field};

verus! {

// ---------------------------------------------------------------------------------------------
// Names.

/// Whether every chain of names ends within `depth` steps.
pub open spec fn base_resolved(names: NamedExprs, e: BaseExpr, depth: nat) -> bool
    decreases depth, 0int, e,
{
    match e {
        BaseExpr::Param(name) => match names.exprs.value_of(name@) {
            Some(x) => depth > 0 && base_resolved(names, x, (depth - 1) as nat),
            None => match names.ext_exprs.value_of(name@) {
                Some(x) => depth > 0 && ext_resolved(names, x, (depth - 1) as nat),
                None => true,
            },
        },
        BaseExpr::Add(a, b) => base_resolved(names, *a, depth) && base_resolved(names, *b, depth),
        BaseExpr::Sub(a, b) => base_resolved(names, *a, depth) && base_resolved(names, *b, depth),
        BaseExpr::Mul(a, b) => base_resolved(names, *a, depth) && base_resolved(names, *b, depth),
        BaseExpr::Neg(a) => base_resolved(names, *a, depth),
        BaseExpr::Inv(a) => base_resolved(names, *a, depth),
        _ => true,
    }
}

pub open spec fn ext_resolved(names: NamedExprs, e: ExtExpr, depth: nat) -> bool
    decreases depth, 1int, e,
{
    match e {
        ExtExpr::SecureCol(a, b, c, d) => base_resolved(names, *a, depth) && base_resolved(
            names,
            *b,
            depth,
        ) && base_resolved(names, *c, depth) && base_resolved(names, *d, depth),
        ExtExpr::Const(_) => true,
        ExtExpr::Param(name) => match names.exprs.value_of(name@) {
            Some(x) => depth > 0 && base_resolved(names, x, (depth - 1) as nat),
            None => match names.ext_exprs.value_of(name@) {
                Some(x) => depth > 0 && ext_resolved(names, x, (depth - 1) as nat),
                None => true,
            },
        },
        ExtExpr::Add(a, b) => ext_resolved(names, *a, depth) && ext_resolved(names, *b, depth),
        ExtExpr::Sub(a, b) => ext_resolved(names, *a, depth) && ext_resolved(names, *b, depth),
        ExtExpr::Mul(a, b) => ext_resolved(names, *a, depth) && ext_resolved(names, *b, depth),
        ExtExpr::Neg(a) => ext_resolved(names, *a, depth),
    }
}

/// No name stands for two expressions.
pub open spec fn names_differ(names: NamedExprs) -> bool {
    forall|n: Seq<char>| #[trigger]
        names.exprs.value_of(n) is Some ==> names.ext_exprs.value_of(n) is None
}

// ---------------------------------------------------------------------------------------------
// Values.

/// What a column is worth, as values move.
pub open spec fn column_values(v: spec_fn(M31) -> Values, c: ColumnExpr) -> spec_fn(M31) -> M31 {
    |t: M31| (v(t).columns)(c)
}

/// What a preprocessed column is worth, as values move.
pub open spec fn preprocessed_values(v: spec_fn(M31) -> Values, n: Seq<char>) -> spec_fn(
    M31,
) -> M31 {
    |t: M31| (v(t).preprocessed)(n)
}

/// What a base expression is worth, as values move.
pub open spec fn base_values(e: BaseExpr, v: spec_fn(M31) -> Values) -> spec_fn(M31) -> M31 {
    |t: M31| e.value_s(v(t))
}

/// What an expression is worth, as values move.
pub open spec fn ext_values(e: ExtExpr, v: spec_fn(M31) -> Values) -> spec_fn(M31) -> QM31 {
    |t: M31| e.value_s(v(t))
}

/// Values that move with an element: every column is a polynomial of degree at most `d` in it,
/// every name is worth what it stands for, and names that stand for nothing keep their values.
/// Nothing is divided by zero.
pub open spec fn moves(names: NamedExprs, v: spec_fn(M31) -> Values, d: nat) -> bool {
    &&& forall|c: ColumnExpr| #[trigger]
        is_polynomial(column_values(v, c), itself(), d)
    &&& forall|n: Seq<char>| #[trigger]
        is_polynomial(preprocessed_values(v, n), itself(), d)
    &&& forall|n: Seq<char>, t: M31|
        (#[trigger] (v(t).params)(n)).canon() == match names.exprs.value_of(n) {
            Some(x) => x.value_s(v(t)).canon(),
            None => (v(M31(0)).params)(n).canon(),
        }
    &&& forall|n: Seq<char>, t: M31|
        (#[trigger] (v(t).ext_params)(n)).canon() == match names.ext_exprs.value_of(n) {
            Some(x) => x.value_s(v(t)).canon(),
            None => (v(M31(0)).ext_params)(n).canon(),
        }
    &&& forall|n: Seq<char>, t: M31|
        #![trigger names.exprs.value_of(n), v(t)]
        match names.exprs.value_of(n) {
            Some(x) => x.invertible(v(t)),
            None => true,
        }
    &&& forall|n: Seq<char>, t: M31|
        #![trigger names.ext_exprs.value_of(n), v(t)]
        match names.ext_exprs.value_of(n) {
            Some(x) => x.invertible(v(t)),
            None => true,
        }
}

/// The degree bound of a base expression bounds the degree of what it is worth: where the columns
/// are polynomials of degree at most `d`, its value is one of degree at most the bound times `d`.
pub proof fn lemma_base_degree_bounds(
    names: NamedExprs,
    e: BaseExpr,
    depth: nat,
    v: spec_fn(M31) -> Values,
    d: nat,
)
    requires
        names_differ(names),
        moves(names, v, d),
        base_resolved(names, e, depth),
        names.base_polynomial(e, depth),
        forall|t: M31| #[trigger] e.invertible(v(t)),
    ensures
        is_polynomial(base_values(e, v), itself(), names.base_degree(e, depth) * d),
    decreases depth, 0int, e,
{
    let f = base_values(e, v);
    let at = itself();
    let bound = names.base_degree(e, depth);
    match e {
        BaseExpr::Col(c) => {
            let g = column_values(v, c);
            assert(is_polynomial(g, at, d));
            lemma_same_function(g, f, at, d);
            assert(1 * d == d);
        },
        BaseExpr::PreprocessedColumn(p) => {
            let n = p.id.id@;
            let g = preprocessed_values(v, n);
            assert(is_polynomial(g, at, d));
            lemma_same_function(g, f, at, d);
            assert(1 * d == d);
        },
        BaseExpr::Const(c) => {
            lemma_constant(f, at, c, bound * d);
        },
        BaseExpr::Param(name) => {
            let n = name@;
            match names.exprs.value_of(n) {
                Some(x) => {
                    assert forall|t: M31| #[trigger] x.invertible(v(t)) by {
                        assert(match names.exprs.value_of(n) {
                            Some(y) => y.invertible(v(t)),
                            None => true,
                        });
                    }
                    lemma_base_degree_bounds(names, x, (depth - 1) as nat, v, d);
                    let g = base_values(x, v);
                    assert forall|t: M31| #[trigger] f(t).canon() == g(t).canon() by {
                        assert((v(t).params)(n).canon() == x.value_s(v(t)).canon());
                    }
                    lemma_same_function(g, f, at, bound * d);
                },
                None => {
                    assert forall|t: M31| #[trigger] f(t).canon() == (v(M31(0)).params)(
                        n,
                    ).canon() by {
                        assert((v(t).params)(n).canon() == (v(M31(0)).params)(n).canon());
                    }
                    lemma_constant(f, at, (v(M31(0)).params)(n), bound * d);
                },
            }
        },
        BaseExpr::Add(a, b) => {
            lemma_base_parts(names, e, *a, *b, depth, v, d);
            lemma_base_same_bound(names, *a, *b, depth, v, d);
            lemma_sum(base_values(*a, v), base_values(*b, v), f, at, bound * d);
        },
        BaseExpr::Sub(a, b) => {
            lemma_base_parts(names, e, *a, *b, depth, v, d);
            lemma_base_same_bound(names, *a, *b, depth, v, d);
            lemma_difference(base_values(*a, v), base_values(*b, v), f, at, bound * d);
        },
        BaseExpr::Mul(a, b) => {
            lemma_base_parts(names, e, *a, *b, depth, v, d);
            let (i, j) = (names.base_degree(*a, depth), names.base_degree(*b, depth));
            lemma_product(
                base_values(*a, v),
                base_values(*b, v),
                f,
                at,
                i * d,
                j * d,
            );
            assert((i + j) * d == i * d + j * d) by (nonlinear_arith);
        },
        BaseExpr::Neg(a) => {
            lemma_base_parts(names, e, *a, *a, depth, v, d);
            lemma_opposite(base_values(*a, v), f, at, bound * d);
        },
        BaseExpr::Inv(a) => {
            lemma_base_parts(names, e, *a, *a, depth, v, d);
            let g = base_values(*a, v);
            assert(0 * d == 0);
            assert(is_polynomial(g, at, 0));
            let c = inv_of(a.value_s(v(M31(0))));
            assert forall|t: M31| #[trigger] f(t).canon() == c.canon() by {
                lemma_is_constant(g, at, t, M31(0));
                let (x, y) = (a.value_s(v(t)), a.value_s(v(M31(0))));
                assert(g(t) == x && g(M31(0)) == y);
                assert(e.invertible(v(t)));
                assert(e.invertible(v(M31(0))));
                lemma_inv_exists(x);
                lemma_inv_exists(y);
                M31::law_canon_args(x, inv_of(x));
                M31::law_canon_args(y, inv_of(x));
                lemma_inverse_unique(y, inv_of(x), inv_of(y));
            }
            lemma_constant(f, at, c, bound * d);
        },
    }
}

proof fn lemma_base_parts(
    names: NamedExprs,
    e: BaseExpr,
    a: BaseExpr,
    b: BaseExpr,
    depth: nat,
    v: spec_fn(M31) -> Values,
    d: nat,
)
    requires
        names_differ(names),
        moves(names, v, d),
        base_resolved(names, a, depth),
        base_resolved(names, b, depth),
        names.base_polynomial(a, depth),
        names.base_polynomial(b, depth),
        forall|t: M31| #[trigger] e.invertible(v(t)),
        forall|t: M31| e.invertible(v(t)) ==> #[trigger] a.invertible(v(t)),
        forall|t: M31| e.invertible(v(t)) ==> #[trigger] b.invertible(v(t)),
        decreases_to!(e => a),
        decreases_to!(e => b),
    ensures
        is_polynomial(base_values(a, v), itself(), names.base_degree(a, depth) * d),
        is_polynomial(base_values(b, v), itself(), names.base_degree(b, depth) * d),
    decreases depth, 0int, e, 0int,
{
    assert forall|t: M31| #[trigger] a.invertible(v(t)) by {
        assert(e.invertible(v(t)));
    }
    assert forall|t: M31| #[trigger] b.invertible(v(t)) by {
        assert(e.invertible(v(t)));
    }
    lemma_base_degree_bounds(names, a, depth, v, d);
    lemma_base_degree_bounds(names, b, depth, v, d);
}

proof fn lemma_base_same_bound(
    names: NamedExprs,
    a: BaseExpr,
    b: BaseExpr,
    depth: nat,
    v: spec_fn(M31) -> Values,
    d: nat,
)
    requires
        is_polynomial(base_values(a, v), itself(), names.base_degree(a, depth) * d),
        is_polynomial(base_values(b, v), itself(), names.base_degree(b, depth) * d),
    ensures
        ({
            let m = max_of(names.base_degree(a, depth), names.base_degree(b, depth));
            &&& is_polynomial(base_values(a, v), itself(), m * d)
            &&& is_polynomial(base_values(b, v), itself(), m * d)
        }),
{
    let (i, j) = (names.base_degree(a, depth), names.base_degree(b, depth));
    let m = max_of(i, j);
    assert(i * d <= m * d) by (nonlinear_arith)
        requires
            i <= m,
    ;
    assert(j * d <= m * d) by (nonlinear_arith)
        requires
            j <= m,
    ;
    lemma_raised(base_values(a, v), itself(), i * d, m * d);
    lemma_raised(base_values(b, v), itself(), j * d, m * d);
}

/// The degree bound of an expression bounds the degree of what it is worth: where the columns are
/// polynomials of degree at most `d`, its value is one of degree at most the bound times `d`.
pub proof fn lemma_ext_degree_bounds(
    names: NamedExprs,
    e: ExtExpr,
    depth: nat,
    v: spec_fn(M31) -> Values,
    d: nat,
)
    requires
        names_differ(names),
        moves(names, v, d),
        ext_resolved(names, e, depth),
        names.ext_polynomial(e, depth),
        forall|t: M31| #[trigger] e.invertible(v(t)),
    ensures
        is_polynomial(ext_values(e, v), embedded_at(), names.ext_degree(e, depth) * d),
    decreases depth, 1int, e,
{
    let f = ext_values(e, v);
    let at = embedded_at();
    let bound = names.ext_degree(e, depth);
    match e {
        ExtExpr::SecureCol(a, b, c, x) => {
            lemma_coordinate(names, e, *a, depth, bound, v, d);
            lemma_coordinate(names, e, *b, depth, bound, v, d);
            lemma_coordinate(names, e, *c, depth, bound, v, d);
            lemma_coordinate(names, e, *x, depth, bound, v, d);
            lemma_from_coordinates(
                base_values(*a, v),
                base_values(*b, v),
                base_values(*c, v),
                base_values(*x, v),
                f,
                bound * d,
            );
        },
        ExtExpr::Const(c) => {
            lemma_constant(f, at, c, bound * d);
        },
        ExtExpr::Param(name) => {
            let n = name@;
            match names.ext_exprs.value_of(n) {
                Some(x) => {
                    assert(names.exprs.value_of(n) is None);
                    assert forall|t: M31| #[trigger] x.invertible(v(t)) by {
                        assert(match names.ext_exprs.value_of(n) {
                            Some(y) => y.invertible(v(t)),
                            None => true,
                        });
                    }
                    lemma_ext_degree_bounds(names, x, (depth - 1) as nat, v, d);
                    let g = ext_values(x, v);
                    assert forall|t: M31| #[trigger] f(t).canon() == g(t).canon() by {
                        assert((v(t).ext_params)(n).canon() == x.value_s(v(t)).canon());
                    }
                    lemma_same_function(g, f, at, bound * d);
                },
                None => {
                    assert forall|t: M31| #[trigger] f(t).canon() == (v(M31(0)).ext_params)(
                        n,
                    ).canon() by {
                        assert((v(t).ext_params)(n).canon() == (v(M31(0)).ext_params)(n).canon());
                    }
                    lemma_constant(f, at, (v(M31(0)).ext_params)(n), bound * d);
                },
            }
        },
        ExtExpr::Add(a, b) => {
            lemma_ext_part(names, e, *a, depth, bound, v, d);
            lemma_ext_part(names, e, *b, depth, bound, v, d);
            lemma_sum(ext_values(*a, v), ext_values(*b, v), f, at, bound * d);
        },
        ExtExpr::Sub(a, b) => {
            lemma_ext_part(names, e, *a, depth, bound, v, d);
            lemma_ext_part(names, e, *b, depth, bound, v, d);
            lemma_difference(ext_values(*a, v), ext_values(*b, v), f, at, bound * d);
        },
        ExtExpr::Mul(a, b) => {
            let (i, j) = (names.ext_degree(*a, depth), names.ext_degree(*b, depth));
            lemma_ext_part(names, e, *a, depth, i, v, d);
            lemma_ext_part(names, e, *b, depth, j, v, d);
            lemma_product(
                ext_values(*a, v),
                ext_values(*b, v),
                f,
                at,
                i * d,
                j * d,
            );
            assert((i + j) * d == i * d + j * d) by (nonlinear_arith);
        },
        ExtExpr::Neg(a) => {
            lemma_ext_part(names, e, *a, depth, bound, v, d);
            lemma_opposite(ext_values(*a, v), f, at, bound * d);
        },
    }
}

proof fn lemma_coordinate(
    names: NamedExprs,
    e: ExtExpr,
    a: BaseExpr,
    depth: nat,
    bound: nat,
    v: spec_fn(M31) -> Values,
    d: nat,
)
    requires
        names_differ(names),
        moves(names, v, d),
        base_resolved(names, a, depth),
        names.base_polynomial(a, depth),
        names.base_degree(a, depth) <= bound,
        forall|t: M31| #[trigger] e.invertible(v(t)),
        forall|t: M31| e.invertible(v(t)) ==> #[trigger] a.invertible(v(t)),
    ensures
        is_polynomial(base_values(a, v), itself(), bound * d),
{
    assert forall|t: M31| #[trigger] a.invertible(v(t)) by {
        assert(e.invertible(v(t)));
    }
    lemma_base_degree_bounds(names, a, depth, v, d);
    let i = names.base_degree(a, depth);
    assert(i * d <= bound * d) by (nonlinear_arith)
        requires
            i <= bound,
    ;
    lemma_raised(base_values(a, v), itself(), i * d, bound * d);
}

proof fn lemma_ext_part(
    names: NamedExprs,
    e: ExtExpr,
    a: ExtExpr,
    depth: nat,
    bound: nat,
    v: spec_fn(M31) -> Values,
    d: nat,
)
    requires
        names_differ(names),
        moves(names, v, d),
        ext_resolved(names, a, depth),
        names.ext_polynomial(a, depth),
        names.ext_degree(a, depth) <= bound,
        forall|t: M31| #[trigger] e.invertible(v(t)),
        forall|t: M31| e.invertible(v(t)) ==> #[trigger] a.invertible(v(t)),
        decreases_to!(e => a),
    ensures
        is_polynomial(ext_values(a, v), embedded_at(), bound * d),
    decreases depth, 1int, e, 0int,
{
    assert forall|t: M31| #[trigger] a.invertible(v(t)) by {
        assert(e.invertible(v(t)));
    }
    lemma_ext_degree_bounds(names, a, depth, v, d);
    let i = names.ext_degree(a, depth);
    assert(i * d <= bound * d) by (nonlinear_arith)
        requires
            i <= bound,
    ;
    lemma_raised(ext_values(a, v), embedded_at(), i * d, bound * d);
}

// ---------------------------------------------------------------------------------------------
// Terms.

/// The sums of two numbers, one of each set.
pub open spec fn sums(a: Set<nat>, b: Set<nat>) -> Set<nat> {
    Set::new(
        |d: nat|
            exists|i: nat, j: nat|
                i + j == d && #[trigger] a.contains(i) && #[trigger] b.contains(j),
    )
}

/// The numbers of columns in the terms of a base expression, multiplied out and with names followed
/// `depth` times. An inverse is a constant.
pub open spec fn base_terms(names: NamedExprs, e: BaseExpr, depth: nat) -> Set<nat>
    decreases depth, 0int, e,
{
    match e {
        BaseExpr::Col(_) => set![1nat],
        BaseExpr::PreprocessedColumn(_) => set![1nat],
        BaseExpr::Const(_) => set![0nat],
        BaseExpr::Param(name) => if depth == 0 {
            set![0nat]
        } else {
            match names.exprs.value_of(name@) {
                Some(x) => base_terms(names, x, (depth - 1) as nat),
                None => match names.ext_exprs.value_of(name@) {
                    Some(x) => ext_terms(names, x, (depth - 1) as nat),
                    None => set![0nat],
                },
            }
        },
        BaseExpr::Add(a, b) => base_terms(names, *a, depth).union(base_terms(names, *b, depth)),
        BaseExpr::Sub(a, b) => base_terms(names, *a, depth).union(base_terms(names, *b, depth)),
        BaseExpr::Mul(a, b) => sums(base_terms(names, *a, depth), base_terms(names, *b, depth)),
        BaseExpr::Neg(a) => base_terms(names, *a, depth),
        BaseExpr::Inv(_) => set![0nat],
    }
}

/// The numbers of columns in the terms of an expression, multiplied out.
pub open spec fn ext_terms(names: NamedExprs, e: ExtExpr, depth: nat) -> Set<nat>
    decreases depth, 1int, e,
{
    match e {
        ExtExpr::SecureCol(a, b, c, d) => base_terms(names, *a, depth).union(
            base_terms(names, *b, depth),
        ).union(base_terms(names, *c, depth)).union(base_terms(names, *d, depth)),
        ExtExpr::Const(_) => set![0nat],
        ExtExpr::Param(name) => if depth == 0 {
            set![0nat]
        } else {
            match names.exprs.value_of(name@) {
                Some(x) => base_terms(names, x, (depth - 1) as nat),
                None => match names.ext_exprs.value_of(name@) {
                    Some(x) => ext_terms(names, x, (depth - 1) as nat),
                    None => set![0nat],
                },
            }
        },
        ExtExpr::Add(a, b) => ext_terms(names, *a, depth).union(ext_terms(names, *b, depth)),
        ExtExpr::Sub(a, b) => ext_terms(names, *a, depth).union(ext_terms(names, *b, depth)),
        ExtExpr::Mul(a, b) => sums(ext_terms(names, *a, depth), ext_terms(names, *b, depth)),
        ExtExpr::Neg(a) => ext_terms(names, *a, depth),
    }
}

/// `d` is the largest number of a set.
pub open spec fn is_largest(d: nat, terms: Set<nat>) -> bool {
    terms.contains(d) && forall|i: nat| #[trigger] terms.contains(i) ==> i <= d
}

proof fn lemma_largest_union(a: Set<nat>, b: Set<nat>, i: nat, j: nat)
    requires
        is_largest(i, a),
        is_largest(j, b),
    ensures
        is_largest(max_of(i, j), a.union(b)),
{
}

proof fn lemma_largest_sum(a: Set<nat>, b: Set<nat>, i: nat, j: nat)
    requires
        is_largest(i, a),
        is_largest(j, b),
    ensures
        is_largest(i + j, sums(a, b)),
{
    assert(a.contains(i) && b.contains(j));
    assert forall|d: nat| #[trigger] sums(a, b).contains(d) implies d <= i + j by {
        let (x, y) = choose|x: nat, y: nat|
            x + y == d && #[trigger] a.contains(x) && #[trigger] b.contains(y);
        assert(a.contains(x) && b.contains(y));
    }
}

/// The degree bound of a base expression is the degree of its largest term.
pub proof fn lemma_base_largest_term(names: NamedExprs, e: BaseExpr, depth: nat)
    ensures
        is_largest(names.base_degree(e, depth), base_terms(names, e, depth)),
    decreases depth, 0int, e,
{
    match e {
        BaseExpr::Param(name) => {
            if depth > 0 {
                match names.exprs.value_of(name@) {
                    Some(x) => lemma_base_largest_term(names, x, (depth - 1) as nat),
                    None => match names.ext_exprs.value_of(name@) {
                        Some(x) => lemma_ext_largest_term(names, x, (depth - 1) as nat),
                        None => {},
                    },
                }
            }
        },
        BaseExpr::Add(a, b) => {
            lemma_base_largest_term(names, *a, depth);
            lemma_base_largest_term(names, *b, depth);
            lemma_largest_union(
                base_terms(names, *a, depth),
                base_terms(names, *b, depth),
                names.base_degree(*a, depth),
                names.base_degree(*b, depth),
            );
        },
        BaseExpr::Sub(a, b) => {
            lemma_base_largest_term(names, *a, depth);
            lemma_base_largest_term(names, *b, depth);
            lemma_largest_union(
                base_terms(names, *a, depth),
                base_terms(names, *b, depth),
                names.base_degree(*a, depth),
                names.base_degree(*b, depth),
            );
        },
        BaseExpr::Mul(a, b) => {
            lemma_base_largest_term(names, *a, depth);
            lemma_base_largest_term(names, *b, depth);
            lemma_largest_sum(
                base_terms(names, *a, depth),
                base_terms(names, *b, depth),
                names.base_degree(*a, depth),
                names.base_degree(*b, depth),
            );
        },
        BaseExpr::Neg(a) => lemma_base_largest_term(names, *a, depth),
        _ => {},
    }
}

/// The degree bound of an expression is the degree of its largest term.
pub proof fn lemma_ext_largest_term(names: NamedExprs, e: ExtExpr, depth: nat)
    ensures
        is_largest(names.ext_degree(e, depth), ext_terms(names, e, depth)),
    decreases depth, 1int, e,
{
    match e {
        ExtExpr::SecureCol(a, b, c, d) => {
            lemma_base_largest_term(names, *a, depth);
            lemma_base_largest_term(names, *b, depth);
            lemma_base_largest_term(names, *c, depth);
            lemma_base_largest_term(names, *d, depth);
        },
        ExtExpr::Const(_) => {},
        ExtExpr::Param(name) => {
            if depth > 0 {
                match names.exprs.value_of(name@) {
                    Some(x) => lemma_base_largest_term(names, x, (depth - 1) as nat),
                    None => match names.ext_exprs.value_of(name@) {
                        Some(x) => lemma_ext_largest_term(names, x, (depth - 1) as nat),
                        None => {},
                    },
                }
            }
        },
        ExtExpr::Add(a, b) => {
            lemma_ext_largest_term(names, *a, depth);
            lemma_ext_largest_term(names, *b, depth);
        },
        ExtExpr::Sub(a, b) => {
            lemma_ext_largest_term(names, *a, depth);
            lemma_ext_largest_term(names, *b, depth);
        },
        ExtExpr::Mul(a, b) => {
            lemma_ext_largest_term(names, *a, depth);
            lemma_ext_largest_term(names, *b, depth);
            lemma_largest_sum(
                ext_terms(names, *a, depth),
                ext_terms(names, *b, depth),
                names.ext_degree(*a, depth),
                names.ext_degree(*b, depth),
            );
        },
        ExtExpr::Neg(a) => lemma_ext_largest_term(names, *a, depth),
    }
}

// ---------------------------------------------------------------------------------------------
// Constraints.

proof fn lemma_base_resolved_deeper(names: NamedExprs, e: BaseExpr, depth: nat, more: nat)
    requires
        base_resolved(names, e, depth),
        depth <= more,
    ensures
        base_resolved(names, e, more),
    decreases depth, 0int, e,
{
    match e {
        BaseExpr::Param(name) => match names.exprs.value_of(name@) {
            Some(x) => lemma_base_resolved_deeper(
                names,
                x,
                (depth - 1) as nat,
                (more - 1) as nat,
            ),
            None => match names.ext_exprs.value_of(name@) {
                Some(x) => lemma_ext_resolved_deeper(
                    names,
                    x,
                    (depth - 1) as nat,
                    (more - 1) as nat,
                ),
                None => {},
            },
        },
        BaseExpr::Add(a, b) => {
            lemma_base_resolved_deeper(names, *a, depth, more);
            lemma_base_resolved_deeper(names, *b, depth, more);
        },
        BaseExpr::Sub(a, b) => {
            lemma_base_resolved_deeper(names, *a, depth, more);
            lemma_base_resolved_deeper(names, *b, depth, more);
        },
        BaseExpr::Mul(a, b) => {
            lemma_base_resolved_deeper(names, *a, depth, more);
            lemma_base_resolved_deeper(names, *b, depth, more);
        },
        BaseExpr::Neg(a) => lemma_base_resolved_deeper(names, *a, depth, more),
        BaseExpr::Inv(a) => lemma_base_resolved_deeper(names, *a, depth, more),
        _ => {},
    }
}

proof fn lemma_ext_resolved_deeper(names: NamedExprs, e: ExtExpr, depth: nat, more: nat)
    requires
        ext_resolved(names, e, depth),
        depth <= more,
    ensures
        ext_resolved(names, e, more),
    decreases depth, 1int, e,
{
    match e {
        ExtExpr::SecureCol(a, b, c, d) => {
            lemma_base_resolved_deeper(names, *a, depth, more);
            lemma_base_resolved_deeper(names, *b, depth, more);
            lemma_base_resolved_deeper(names, *c, depth, more);
            lemma_base_resolved_deeper(names, *d, depth, more);
        },
        ExtExpr::Const(_) => {},
        ExtExpr::Param(name) => match names.exprs.value_of(name@) {
            Some(x) => lemma_base_resolved_deeper(
                names,
                x,
                (depth - 1) as nat,
                (more - 1) as nat,
            ),
            None => match names.ext_exprs.value_of(name@) {
                Some(x) => lemma_ext_resolved_deeper(
                    names,
                    x,
                    (depth - 1) as nat,
                    (more - 1) as nat,
                ),
                None => {},
            },
        },
        ExtExpr::Add(a, b) => {
            lemma_ext_resolved_deeper(names, *a, depth, more);
            lemma_ext_resolved_deeper(names, *b, depth, more);
        },
        ExtExpr::Sub(a, b) => {
            lemma_ext_resolved_deeper(names, *a, depth, more);
            lemma_ext_resolved_deeper(names, *b, depth, more);
        },
        ExtExpr::Mul(a, b) => {
            lemma_ext_resolved_deeper(names, *a, depth, more);
            lemma_ext_resolved_deeper(names, *b, depth, more);
        },
        ExtExpr::Neg(a) => lemma_ext_resolved_deeper(names, *a, depth, more),
    }
}

impl ExprEvaluator {
    /// The names that a base expression uses are those of intermediates before the `k`-th.
    spec fn base_known(self, e: BaseExpr, k: int) -> bool {
        forall|n: Seq<char>| #[trigger]
            e.uses_param(n) && is_reserved(n) ==> has_name(self.ordered@.take(k), n)
                && self.intermediates.value_of(n) is Some
    }

    /// A name among the first `k` intermediates resolves within `k` steps.
    proof fn lemma_name_resolved(self, n: Seq<char>, k: int)
        requires
            self.wf(),
            self.orderly(),
            0 <= k <= self.ordered@.len(),
            has_name(self.ordered@.take(k), n),
        ensures
            k > 0,
            match self.intermediates.value_of(n) {
                Some(x) => base_resolved(self.names(), x, (k - 1) as nat),
                None => match self.ext_intermediates.value_of(n) {
                    Some(x) => ext_resolved(self.names(), x, (k - 1) as nat),
                    None => true,
                },
            },
        decreases k, 2int,
    {
        let j = choose|j: int| 0 <= j < k && (#[trigger] self.ordered@.take(k)[j])@ == n;
        assert(self.ordered@[j]@ == n);
        let e = self.expr_at(j);
        assert(self.knows(e, j));
        self.lemma_ext_known_resolved(e, j);
        match self.intermediates.value_of(n) {
            Some(x) => {
                assert(e == ExtExpr::from_base_s(x));
                assert(base_resolved(self.names(), x, j as nat));
                lemma_base_resolved_deeper(self.names(), x, j as nat, (k - 1) as nat);
            },
            None => {
                lemma_ext_resolved_deeper(self.names(), e, j as nat, (k - 1) as nat);
            },
        }
    }

    /// A name that stands for something is reserved.
    proof fn lemma_named_reserved(self, n: Seq<char>)
        requires
            self.wf(),
            self.intermediates.value_of(n) is Some || self.ext_intermediates.value_of(n) is Some,
        ensures
            is_reserved(n),
    {
        assert(self.is_intermediate(n));
        let j = choose|j: int| 0 <= j < self.ordered@.len() && (#[trigger] self.ordered@[j])@ == n;
        assert(self.ordered@[j]@ == intermediate_name(j as nat));
    }

    proof fn lemma_base_known_resolved(self, e: BaseExpr, k: int)
        requires
            self.wf(),
            self.orderly(),
            0 <= k <= self.ordered@.len(),
            self.base_known(e, k),
        ensures
            base_resolved(self.names(), e, k as nat),
        decreases k, 3int, e,
    {
        match e {
            BaseExpr::Param(name) => {
                let n = name@;
                assert(e.uses_param(n));
                if self.intermediates.value_of(n) is Some || self.ext_intermediates.value_of(
                    n,
                ) is Some {
                    self.lemma_named_reserved(n);
                    self.lemma_name_resolved(n, k);
                }
            },
            BaseExpr::Add(a, b) => {
                assert(forall|n: Seq<char>| #[trigger] a.uses_param(n) ==> e.uses_param(n));
                assert(forall|n: Seq<char>| #[trigger] b.uses_param(n) ==> e.uses_param(n));
                self.lemma_base_known_resolved(*a, k);
                self.lemma_base_known_resolved(*b, k);
            },
            BaseExpr::Sub(a, b) => {
                assert(forall|n: Seq<char>| #[trigger] a.uses_param(n) ==> e.uses_param(n));
                assert(forall|n: Seq<char>| #[trigger] b.uses_param(n) ==> e.uses_param(n));
                self.lemma_base_known_resolved(*a, k);
                self.lemma_base_known_resolved(*b, k);
            },
            BaseExpr::Mul(a, b) => {
                assert(forall|n: Seq<char>| #[trigger] a.uses_param(n) ==> e.uses_param(n));
                assert(forall|n: Seq<char>| #[trigger] b.uses_param(n) ==> e.uses_param(n));
                self.lemma_base_known_resolved(*a, k);
                self.lemma_base_known_resolved(*b, k);
            },
            BaseExpr::Neg(a) => {
                assert(forall|n: Seq<char>| #[trigger] a.uses_param(n) ==> e.uses_param(n));
                self.lemma_base_known_resolved(*a, k);
            },
            BaseExpr::Inv(a) => {
                assert(forall|n: Seq<char>| #[trigger] a.uses_param(n) ==> e.uses_param(n));
                self.lemma_base_known_resolved(*a, k);
            },
            _ => {},
        }
    }

    /// An expression that uses only the names of the first `k` intermediates resolves within `k`
    /// steps.
    pub proof fn lemma_ext_known_resolved(self, e: ExtExpr, k: int)
        requires
            self.wf(),
            self.orderly(),
            0 <= k <= self.ordered@.len(),
            self.knows(e, k),
        ensures
            ext_resolved(self.names(), e, k as nat),
        decreases k, 4int, e,
    {
        match e {
            ExtExpr::SecureCol(a, b, c, d) => {
                assert(forall|n: Seq<char>| #[trigger] a.uses_param(n) ==> e.uses_param(n));
                assert(forall|n: Seq<char>| #[trigger] b.uses_param(n) ==> e.uses_param(n));
                assert(forall|n: Seq<char>| #[trigger] c.uses_param(n) ==> e.uses_param(n));
                assert(forall|n: Seq<char>| #[trigger] d.uses_param(n) ==> e.uses_param(n));
                self.lemma_base_known_resolved(*a, k);
                self.lemma_base_known_resolved(*b, k);
                self.lemma_base_known_resolved(*c, k);
                self.lemma_base_known_resolved(*d, k);
            },
            ExtExpr::Const(_) => {},
            ExtExpr::Param(name) => {
                let n = name@;
                assert(e.uses_ext_param(n));
                if self.intermediates.value_of(n) is Some || self.ext_intermediates.value_of(
                    n,
                ) is Some {
                    self.lemma_named_reserved(n);
                    self.lemma_name_resolved(n, k);
                }
            },
            ExtExpr::Add(a, b) => self.lemma_known_parts(e, *a, *b, k),
            ExtExpr::Sub(a, b) => self.lemma_known_parts(e, *a, *b, k),
            ExtExpr::Mul(a, b) => self.lemma_known_parts(e, *a, *b, k),
            ExtExpr::Neg(a) => self.lemma_known_parts(e, *a, *a, k),
        }
    }

    proof fn lemma_known_parts(self, e: ExtExpr, a: ExtExpr, b: ExtExpr, k: int)
        requires
            self.wf(),
            self.orderly(),
            0 <= k <= self.ordered@.len(),
            self.knows(e, k),
            forall|n: Seq<char>| #[trigger] a.uses_param(n) ==> e.uses_param(n),
            forall|n: Seq<char>| #[trigger] b.uses_param(n) ==> e.uses_param(n),
            forall|n: Seq<char>| #[trigger] a.uses_ext_param(n) ==> e.uses_ext_param(n),
            forall|n: Seq<char>| #[trigger] b.uses_ext_param(n) ==> e.uses_ext_param(n),
            decreases_to!(e => a),
            decreases_to!(e => b),
        ensures
            ext_resolved(self.names(), a, k as nat),
            ext_resolved(self.names(), b, k as nat),
        decreases k, 4int, e, 0int,
    {
        self.lemma_ext_known_resolved(a, k);
        self.lemma_ext_known_resolved(b, k);
    }

    /// What `constraint_degree_bounds` gives for a constraint bounds its degree: where the columns
    /// are polynomials of degree at most `d`, the constraint is one of degree at most the bound
    /// times `d`. And the bound is the degree of its largest term.
    pub proof fn lemma_constraint_degree(self, i: int, v: spec_fn(M31) -> Values, d: nat)
        requires
            self.wf(),
            self.orderly(),
            0 <= i < self.constraints@.len(),
            self.knows_names(self.constraints@[i]),
            self.names().ext_polynomial(self.constraints@[i], self.ordered@.len()),
            moves(self.names(), v, d),
            forall|t: M31| #[trigger] self.constraints@[i].invertible(v(t)),
        ensures
            is_polynomial(
                ext_values(self.constraints@[i], v),
                embedded_at(),
                self.names().ext_degree(self.constraints@[i], self.ordered@.len()) * d,
            ),
            is_largest(
                self.names().ext_degree(self.constraints@[i], self.ordered@.len()),
                ext_terms(self.names(), self.constraints@[i], self.ordered@.len()),
            ),
    {
        let e = self.constraints@[i];
        let n = self.ordered@.len();
        self.lemma_ext_known_resolved(e, n as int);
        assert(names_differ(self.names()));
        lemma_ext_degree_bounds(self.names(), e, n, v, d);
        lemma_ext_largest_term(self.names(), e, n);
    }
}

} // verus!
