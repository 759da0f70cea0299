//! Functions of a base field element that are polynomials of bounded degree.

use vstd::prelude::*;

use crate::fields::m31::M31;
use crate::fields::qm31::{embed, lemma_coordinates, QM31};
use crate::fields::{
    lemma_add_swap_middle, lemma_canon_both, lemma_distrib_right, lemma_mul_swap, lemma_mul_zero,
    lemma_neg_one_times, Field,
};
use crate::framework::expr::from_coords;
use crate::poly::eval::lemma_scaled_is_times;

verus! {

/// The value at `t` of the polynomial with the given coefficients, the constant one first.
pub open spec fn horner<F: Field>(p: Seq<F>, t: F) -> F
    decreases p.len(),
{
    if p.len() == 0 {
        F::zero_el()
    } else {
        p[0].plus(t.times(horner(p.drop_first(), t)))
    }
}

/// `f` is a polynomial of degree at most `d` in the element that `at` makes of its argument.
pub open spec fn is_polynomial<F: Field>(
    f: spec_fn(M31) -> F,
    at: spec_fn(M31) -> F,
    d: nat,
) -> bool {
    exists|p: Seq<F>| #[trigger] represents(p, f, at) && p.len() <= d + 1
}

/// `f` takes the values of the polynomial with the given coefficients.
pub open spec fn represents<F: Field>(
    p: Seq<F>,
    f: spec_fn(M31) -> F,
    at: spec_fn(M31) -> F,
) -> bool {
    forall|t: M31| #[trigger] f(t).canon() == horner(p, at(t))
}

// ---------------------------------------------------------------------------------------------
// Arithmetic.

spec fn coefficient<F: Field>(p: Seq<F>, i: int) -> F {
    if i < p.len() {
        p[i]
    } else {
        F::zero_el()
    }
}

spec fn longer(a: nat, b: nat) -> nat {
    if a >= b {
        a
    } else {
        b
    }
}

spec fn rest<F: Field>(p: Seq<F>) -> Seq<F> {
    if p.len() > 0 {
        p.drop_first()
    } else {
        p
    }
}

spec fn added<F: Field>(p: Seq<F>, q: Seq<F>) -> Seq<F> {
    Seq::new(longer(p.len(), q.len()), |i: int| coefficient(p, i).plus(coefficient(q, i)))
}

spec fn stretched<F: Field>(p: Seq<F>, c: F) -> Seq<F> {
    p.map_values(|a: F| c.times(a))
}

spec fn multiplied<F: Field>(p: Seq<F>, q: Seq<F>) -> Seq<F>
    decreases p.len(),
{
    if p.len() == 0 {
        Seq::empty()
    } else {
        added(stretched(q, p[0]), seq![F::zero_el()] + multiplied(p.drop_first(), q))
    }
}

proof fn lemma_horner_rest<F: Field>(p: Seq<F>, t: F)
    ensures
        horner(p, t) == coefficient(p, 0).plus(t.times(horner(rest(p), t))),
        horner(p, t).canon() == horner(p, t),
{
    let z = F::zero_el();
    lemma_mul_zero(t);
    F::law_add_zero(z);
    F::law_canon_results(z, z);
    if p.len() > 0 {
        F::law_canon_results(p[0], t.times(horner(p.drop_first(), t)));
    }
}

proof fn lemma_added<F: Field>(p: Seq<F>, q: Seq<F>, t: F)
    ensures
        horner(added(p, q), t) == horner(p, t).plus(horner(q, t)),
    decreases p.len() + q.len(),
{
    let r = added(p, q);
    lemma_horner_rest(p, t);
    lemma_horner_rest(q, t);
    if r.len() == 0 {
        F::law_add_zero(F::zero_el());
        F::law_canon_results(F::zero_el(), F::zero_el());
    } else {
        assert(r.drop_first() =~= added(rest(p), rest(q)));
        lemma_added(rest(p), rest(q), t);
        let (a, b) = (horner(rest(p), t), horner(rest(q), t));
        F::law_distrib(t, a, b);
        lemma_add_swap_middle(coefficient(p, 0), coefficient(q, 0), t.times(a), t.times(b));
    }
}

proof fn lemma_stretched<F: Field>(p: Seq<F>, c: F, t: F)
    ensures
        horner(stretched(p, c), t) == c.times(horner(p, t)),
    decreases p.len(),
{
    let r = stretched(p, c);
    if p.len() == 0 {
        lemma_mul_zero(c);
    } else {
        assert(r.drop_first() =~= stretched(p.drop_first(), c));
        lemma_stretched(p.drop_first(), c, t);
        let h = horner(p.drop_first(), t);
        F::law_distrib(c, p[0], t.times(h));
        lemma_mul_swap(c, t, h);
    }
}

proof fn lemma_multiplied<F: Field>(p: Seq<F>, q: Seq<F>, t: F)
    ensures
        horner(multiplied(p, q), t) == horner(p, t).times(horner(q, t)),
    decreases p.len(),
{
    let h = horner(q, t);
    if p.len() == 0 {
        lemma_mul_zero(h);
    } else {
        let tail = multiplied(p.drop_first(), q);
        let moved = seq![F::zero_el()] + tail;
        lemma_multiplied(p.drop_first(), q, t);
        lemma_added(stretched(q, p[0]), moved, t);
        lemma_stretched(q, p[0], t);
        assert(moved.drop_first() =~= tail);
        let s = t.times(horner(tail, t));
        F::law_add_comm(F::zero_el(), s);
        F::law_add_zero(s);
        F::law_canon_results(t, horner(tail, t));
        // t (a b) = (t a) b
        F::law_mul_assoc(t, horner(p.drop_first(), t), h);
        lemma_distrib_right(p[0], t.times(horner(p.drop_first(), t)), h);
    }
}

proof fn lemma_multiplied_len<F: Field>(p: Seq<F>, q: Seq<F>)
    ensures
        p.len() == 0 ==> multiplied(p, q).len() == 0,
        p.len() > 0 ==> multiplied(p, q).len() <= p.len() + longer(q.len(), 1) - 1,
    decreases p.len(),
{
    if p.len() > 0 {
        lemma_multiplied_len(p.drop_first(), q);
    }
}

/// Constants are polynomials of degree zero.
pub proof fn lemma_constant<F: Field>(f: spec_fn(M31) -> F, at: spec_fn(M31) -> F, c: F, d: nat)
    requires
        forall|t: M31| #[trigger] f(t).canon() == c.canon(),
    ensures
        is_polynomial(f, at, d),
{
    let p = seq![c];
    assert forall|t: M31| #[trigger] f(t).canon() == horner(p, at(t)) by {
        assert(p.drop_first().len() == 0);
        assert(horner(p.drop_first(), at(t)) == F::zero_el());
        assert(p[0] == c);
        lemma_mul_zero(at(t));
        F::law_add_zero(c);
    }
    assert(represents(p, f, at));
}

/// A polynomial of degree zero is constant.
pub proof fn lemma_is_constant<F: Field>(
    f: spec_fn(M31) -> F,
    at: spec_fn(M31) -> F,
    s: M31,
    t: M31,
)
    requires
        is_polynomial(f, at, 0),
    ensures
        f(s).canon() == f(t).canon(),
{
    let p = choose|p: Seq<F>| #[trigger] represents(p, f, at) && p.len() <= 1;
    if p.len() == 1 {
        assert(p.drop_first().len() == 0);
        assert(horner(p.drop_first(), at(s)) == F::zero_el());
        assert(horner(p.drop_first(), at(t)) == F::zero_el());
        lemma_mul_zero(at(s));
        lemma_mul_zero(at(t));
    }
    assert(f(s).canon() == horner(p, at(s)));
    assert(f(t).canon() == horner(p, at(t)));
}

/// A bound on the degree may be raised.
pub proof fn lemma_raised<F: Field>(
    f: spec_fn(M31) -> F,
    at: spec_fn(M31) -> F,
    d: nat,
    e: nat,
)
    requires
        is_polynomial(f, at, d),
        d <= e,
    ensures
        is_polynomial(f, at, e),
{
    let p = choose|p: Seq<F>| #[trigger] represents(p, f, at) && p.len() <= d + 1;
    assert(represents(p, f, at) && p.len() <= e + 1);
}

/// Functions with the same values are polynomials alike.
pub proof fn lemma_same_function<F: Field>(
    f: spec_fn(M31) -> F,
    g: spec_fn(M31) -> F,
    at: spec_fn(M31) -> F,
    d: nat,
)
    requires
        is_polynomial(f, at, d),
        forall|t: M31| #[trigger] g(t).canon() == f(t).canon(),
    ensures
        is_polynomial(g, at, d),
{
    let p = choose|p: Seq<F>| #[trigger] represents(p, f, at) && p.len() <= d + 1;
    assert forall|t: M31| #[trigger] g(t).canon() == horner(p, at(t)) by {
        assert(f(t).canon() == horner(p, at(t)));
    }
    assert(represents(p, g, at));
}

/// The sum of polynomials.
pub proof fn lemma_sum<F: Field>(
    f: spec_fn(M31) -> F,
    g: spec_fn(M31) -> F,
    h: spec_fn(M31) -> F,
    at: spec_fn(M31) -> F,
    d: nat,
)
    requires
        is_polynomial(f, at, d),
        is_polynomial(g, at, d),
        forall|t: M31| #[trigger] h(t) == f(t).plus(g(t)),
    ensures
        is_polynomial(h, at, d),
{
    let p = choose|p: Seq<F>| #[trigger] represents(p, f, at) && p.len() <= d + 1;
    let q = choose|q: Seq<F>| #[trigger] represents(q, g, at) && q.len() <= d + 1;
    let r = added(p, q);
    assert forall|t: M31| #[trigger] h(t).canon() == horner(r, at(t)) by {
        assert(f(t).canon() == horner(p, at(t)));
        assert(g(t).canon() == horner(q, at(t)));
        lemma_added(p, q, at(t));
        lemma_canon_both(f(t), g(t));
        F::law_canon_results(f(t), g(t));
    }
    assert(represents(r, h, at) && r.len() <= d + 1);
}

/// The opposite of a polynomial.
pub proof fn lemma_opposite<F: Field>(
    f: spec_fn(M31) -> F,
    h: spec_fn(M31) -> F,
    at: spec_fn(M31) -> F,
    d: nat,
)
    requires
        is_polynomial(f, at, d),
        forall|t: M31| #[trigger] h(t) == f(t).opposite(),
    ensures
        is_polynomial(h, at, d),
{
    let p = choose|p: Seq<F>| #[trigger] represents(p, f, at) && p.len() <= d + 1;
    let m = F::one_el().opposite();
    let r = stretched(p, m);
    assert forall|t: M31| #[trigger] h(t).canon() == horner(r, at(t)) by {
        assert(f(t).canon() == horner(p, at(t)));
        lemma_stretched(p, m, at(t));
        lemma_neg_one_times(f(t).canon());
        F::law_canon_args(f(t), f(t));
        F::law_canon_results(f(t), f(t));
    }
    assert(represents(r, h, at) && r.len() <= d + 1);
}

/// The difference of polynomials.
pub proof fn lemma_difference<F: Field>(
    f: spec_fn(M31) -> F,
    g: spec_fn(M31) -> F,
    h: spec_fn(M31) -> F,
    at: spec_fn(M31) -> F,
    d: nat,
)
    requires
        is_polynomial(f, at, d),
        is_polynomial(g, at, d),
        forall|t: M31| #[trigger] h(t) == f(t).minus(g(t)),
    ensures
        is_polynomial(h, at, d),
{
    let m = |t: M31| g(t).opposite();
    lemma_opposite(g, m, at, d);
    assert forall|t: M31| #[trigger] h(t) == f(t).plus(m(t)) by {
        F::law_sub(f(t), g(t));
    }
    lemma_sum(f, m, h, at, d);
}

/// The product of polynomials: the degrees add up.
pub proof fn lemma_product<F: Field>(
    f: spec_fn(M31) -> F,
    g: spec_fn(M31) -> F,
    h: spec_fn(M31) -> F,
    at: spec_fn(M31) -> F,
    d: nat,
    e: nat,
)
    requires
        is_polynomial(f, at, d),
        is_polynomial(g, at, e),
        forall|t: M31| #[trigger] h(t) == f(t).times(g(t)),
    ensures
        is_polynomial(h, at, d + e),
{
    let p = choose|p: Seq<F>| #[trigger] represents(p, f, at) && p.len() <= d + 1;
    let q = choose|q: Seq<F>| #[trigger] represents(q, g, at) && q.len() <= e + 1;
    let r = multiplied(p, q);
    lemma_multiplied_len(p, q);
    assert forall|t: M31| #[trigger] h(t).canon() == horner(r, at(t)) by {
        assert(f(t).canon() == horner(p, at(t)));
        assert(g(t).canon() == horner(q, at(t)));
        lemma_multiplied(p, q, at(t));
        lemma_canon_both(f(t), g(t));
        F::law_canon_results(f(t), g(t));
    }
    assert(represents(r, h, at) && r.len() <= d + e + 1);
}

// ---------------------------------------------------------------------------------------------
// Coordinates.

/// The base field element itself.
pub open spec fn itself() -> spec_fn(M31) -> M31 {
    |t: M31| t
}

/// The base field element as a secure one.
pub open spec fn embedded_at() -> spec_fn(M31) -> QM31 {
    |t: M31| embed(t)
}

spec fn joined(a: Seq<M31>, b: Seq<M31>, c: Seq<M31>, d: Seq<M31>) -> Seq<QM31> {
    Seq::new(
        longer(longer(a.len(), b.len()), longer(c.len(), d.len())),
        |i: int|
            from_coords(coefficient(a, i), coefficient(b, i), coefficient(c, i), coefficient(d, i)),
    )
}

proof fn lemma_joined(a: Seq<M31>, b: Seq<M31>, c: Seq<M31>, d: Seq<M31>, t: M31)
    ensures
        horner(joined(a, b, c, d), embed(t)) == from_coords(
            horner(a, t),
            horner(b, t),
            horner(c, t),
            horner(d, t),
        ),
    decreases a.len() + b.len() + c.len() + d.len(),
{
    let r = joined(a, b, c, d);
    if r.len() > 0 {
        lemma_horner_rest(a, t);
        lemma_horner_rest(b, t);
        lemma_horner_rest(c, t);
        lemma_horner_rest(d, t);
        assert(r.drop_first() =~= joined(rest(a), rest(b), rest(c), rest(d)));
        lemma_joined(rest(a), rest(b), rest(c), rest(d), t);
        let h = horner(r.drop_first(), embed(t));
        QM31::law_mul_comm(embed(t), h);
        lemma_scaled_is_times(h, t);
        lemma_coordinates(h, h, t);
        lemma_coordinates(r[0], h.scaled(t), t);
        M31::law_mul_comm(t, h.0.0);
        M31::law_mul_comm(t, h.0.1);
        M31::law_mul_comm(t, h.1.0);
        M31::law_mul_comm(t, h.1.1);
    }
}

/// Four polynomials are the coordinates of one.
pub proof fn lemma_from_coordinates(
    a: spec_fn(M31) -> M31,
    b: spec_fn(M31) -> M31,
    c: spec_fn(M31) -> M31,
    d: spec_fn(M31) -> M31,
    h: spec_fn(M31) -> QM31,
    n: nat,
)
    requires
        is_polynomial(a, itself(), n),
        is_polynomial(b, itself(), n),
        is_polynomial(c, itself(), n),
        is_polynomial(d, itself(), n),
        forall|t: M31| #[trigger] h(t) == from_coords(a(t), b(t), c(t), d(t)),
    ensures
        is_polynomial(h, embedded_at(), n),
{
    let at = itself();
    let pa = choose|p: Seq<M31>| #[trigger] represents(p, a, at) && p.len() <= n + 1;
    let pb = choose|p: Seq<M31>| #[trigger] represents(p, b, at) && p.len() <= n + 1;
    let pc = choose|p: Seq<M31>| #[trigger] represents(p, c, at) && p.len() <= n + 1;
    let pd = choose|p: Seq<M31>| #[trigger] represents(p, d, at) && p.len() <= n + 1;
    let r = joined(pa, pb, pc, pd);
    assert forall|t: M31| #[trigger] h(t).canon() == horner(r, embedded_at()(t)) by {
        assert(a(t).canon() == horner(pa, at(t)));
        assert(b(t).canon() == horner(pb, at(t)));
        assert(c(t).canon() == horner(pc, at(t)));
        assert(d(t).canon() == horner(pd, at(t)));
        lemma_joined(pa, pb, pc, pd, t);
        lemma_coordinates(h(t), h(t), t);
    }
    assert(represents(r, h, embedded_at()) && r.len() <= n + 1);
}

} // verus!
