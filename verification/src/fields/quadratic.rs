//! Laws of a quadratic extension `R[w] / (w^2 - beta)` over a field `R`.
//!
//! An element is a pair `(a, b)` for `a + b * w`. The product of `(a, b)` and `(c, d)` is
//! `(a * c + beta * (b * d), a * d + b * c)`.

use vstd::prelude::*;

use super::{
    lemma_add_swap_middle, lemma_distrib_right, lemma_mul_opposite, lemma_mul_swap, lemma_mul_zero,
    Field,
};

verus! {

/// First coordinate of the product.
pub open spec fn quad_fst<R: Field>(beta: R, a: R, b: R, c: R, d: R) -> R {
    a.times(c).plus(beta.times(b.times(d)))
}

/// Second coordinate of the product.
pub open spec fn quad_snd<R: Field>(a: R, b: R, c: R, d: R) -> R {
    a.times(d).plus(b.times(c))
}

pub proof fn lemma_quad_comm<R: Field>(beta: R, a: R, b: R, c: R, d: R)
    ensures
        quad_fst(beta, a, b, c, d) == quad_fst(beta, c, d, a, b),
        quad_snd(a, b, c, d) == quad_snd(c, d, a, b),
{
    R::law_mul_comm(a, c);
    R::law_mul_comm(b, d);
    R::law_mul_comm(a, d);
    R::law_mul_comm(b, c);
    R::law_add_comm(a.times(d), b.times(c));
}

/// Rearranges `(p + q) + (r + s)` into `(p + r) + (s + q)`.
proof fn lemma_rotate<R: Field>(p: R, q: R, r: R, s: R)
    ensures
        p.plus(q).plus(r.plus(s)) == p.plus(r).plus(s.plus(q)),
{
    lemma_add_swap_middle(p, q, r, s);
    R::law_add_comm(q, s);
}

proof fn lemma_quad_assoc_fst<R: Field>(beta: R, a: R, b: R, c: R, d: R, e: R, f: R)
    ensures
        quad_fst(beta, quad_fst(beta, a, b, c, d), quad_snd(a, b, c, d), e, f) == quad_fst(
            beta,
            a,
            b,
            quad_fst(beta, c, d, e, f),
            quad_snd(c, d, e, f),
        ),
{
    let ace = a.times(c.times(e));
    let bde = beta.times(b.times(d.times(e)));
    let adf = beta.times(a.times(d.times(f)));
    let bcf = beta.times(b.times(c.times(f)));
    // Left side.
    lemma_distrib_right(a.times(c), beta.times(b.times(d)), e);
    R::law_mul_assoc(a, c, e);
    R::law_mul_assoc(beta, b.times(d), e);
    R::law_mul_assoc(b, d, e);
    lemma_distrib_right(a.times(d), b.times(c), f);
    R::law_mul_assoc(a, d, f);
    R::law_mul_assoc(b, c, f);
    R::law_distrib(beta, a.times(d.times(f)), b.times(c.times(f)));
    // Right side.
    R::law_distrib(a, c.times(e), beta.times(d.times(f)));
    lemma_mul_swap(a, beta, d.times(f));
    R::law_distrib(b, c.times(f), d.times(e));
    R::law_distrib(beta, b.times(c.times(f)), b.times(d.times(e)));
    lemma_rotate(ace, bde, adf, bcf);
}

proof fn lemma_quad_assoc_snd<R: Field>(beta: R, a: R, b: R, c: R, d: R, e: R, f: R)
    ensures
        quad_snd(quad_fst(beta, a, b, c, d), quad_snd(a, b, c, d), e, f) == quad_snd(
            a,
            b,
            quad_fst(beta, c, d, e, f),
            quad_snd(c, d, e, f),
        ),
{
    let acf = a.times(c.times(f));
    let bdf = beta.times(b.times(d.times(f)));
    let ade = a.times(d.times(e));
    let bce = b.times(c.times(e));
    lemma_distrib_right(a.times(c), beta.times(b.times(d)), f);
    R::law_mul_assoc(a, c, f);
    R::law_mul_assoc(beta, b.times(d), f);
    R::law_mul_assoc(b, d, f);
    lemma_distrib_right(a.times(d), b.times(c), e);
    R::law_mul_assoc(a, d, e);
    R::law_mul_assoc(b, c, e);
    R::law_distrib(a, c.times(f), d.times(e));
    R::law_distrib(b, c.times(e), beta.times(d.times(f)));
    lemma_mul_swap(b, beta, d.times(f));
    lemma_rotate(acf, bdf, ade, bce);
}

pub proof fn lemma_quad_assoc<R: Field>(beta: R, a: R, b: R, c: R, d: R, e: R, f: R)
    ensures
        quad_fst(beta, quad_fst(beta, a, b, c, d), quad_snd(a, b, c, d), e, f) == quad_fst(
            beta,
            a,
            b,
            quad_fst(beta, c, d, e, f),
            quad_snd(c, d, e, f),
        ),
        quad_snd(quad_fst(beta, a, b, c, d), quad_snd(a, b, c, d), e, f) == quad_snd(
            a,
            b,
            quad_fst(beta, c, d, e, f),
            quad_snd(c, d, e, f),
        ),
{
    lemma_quad_assoc_fst(beta, a, b, c, d, e, f);
    lemma_quad_assoc_snd(beta, a, b, c, d, e, f);
}

pub proof fn lemma_quad_distrib<R: Field>(beta: R, a: R, b: R, c: R, d: R, e: R, f: R)
    ensures
        quad_fst(beta, a, b, c.plus(e), d.plus(f)) == quad_fst(beta, a, b, c, d).plus(
            quad_fst(beta, a, b, e, f),
        ),
        quad_snd(a, b, c.plus(e), d.plus(f)) == quad_snd(a, b, c, d).plus(quad_snd(a, b, e, f)),
{
    R::law_distrib(a, c, e);
    R::law_distrib(b, d, f);
    R::law_distrib(beta, b.times(d), b.times(f));
    lemma_add_swap_middle(
        a.times(c),
        a.times(e),
        beta.times(b.times(d)),
        beta.times(b.times(f)),
    );
    R::law_distrib(a, d, f);
    R::law_distrib(b, c, e);
    lemma_add_swap_middle(a.times(d), a.times(f), b.times(c), b.times(e));
}

/// Multiplying by one.
pub proof fn lemma_quad_one<R: Field>(beta: R, a: R, b: R)
    ensures
        quad_fst(beta, a, b, R::one_el(), R::zero_el()) == a.canon(),
        quad_snd(a, b, R::one_el(), R::zero_el()) == b.canon(),
{
    R::law_mul_one(a);
    R::law_mul_one(b);
    lemma_mul_zero(b);
    lemma_mul_zero(a);
    lemma_mul_zero(beta);
    R::law_add_zero(a.canon());
    R::law_canon_results(a, a);
    R::law_canon_results(b, b);
    R::law_add_comm(R::zero_el(), b.canon());
    R::law_add_zero(b.canon());
}

/// The factors may be replaced by their canonical representatives.
pub proof fn lemma_quad_canon<R: Field>(beta: R, a: R, b: R, c: R, d: R)
    ensures
        quad_fst(beta, a.canon(), b.canon(), c, d) == quad_fst(beta, a, b, c, d),
        quad_snd(a.canon(), b.canon(), c, d) == quad_snd(a, b, c, d),
{
    R::law_canon_args(a, c);
    R::law_canon_args(a, d);
    R::law_canon_args(b, c);
    R::law_canon_args(b, d);
}

/// The norm `a^2 - beta * b^2`.
pub open spec fn quad_norm<R: Field>(beta: R, a: R, b: R) -> R {
    a.times(a).minus(beta.times(b.times(b)))
}

/// Dividing the conjugate by the norm inverts.
pub proof fn lemma_quad_inverse<R: Field>(beta: R, a: R, b: R, n: R)
    requires
        quad_norm(beta, a, b).times(n) == R::one_el(),
    ensures
        quad_fst(beta, a, b, a.times(n), b.opposite().times(n)) == R::one_el(),
        quad_snd(a, b, a.times(n), b.opposite().times(n)) == R::zero_el(),
{
    // a * (a n) + beta * (b * (-b n)) = (a a - beta b b) n
    let aa = a.times(a);
    let bb = b.times(b);
    R::law_mul_assoc(a, a, n);
    lemma_mul_opposite(b, n);
    lemma_mul_opposite(b, b.times(n));
    R::law_mul_assoc(b, b, n);
    lemma_mul_opposite(beta, bb.times(n));
    R::law_mul_assoc(beta, bb, n);
    super::lemma_distrib_sub_right(aa, beta.times(bb), n);
    R::law_sub(aa.times(n), beta.times(bb).times(n));
    // a * (-b n) + b * (a n) = 0
    lemma_mul_opposite(a, b.times(n));
    lemma_mul_swap(b, a, n);
    let x = a.times(b.times(n));
    R::law_add_comm(x.opposite(), x);
    R::law_add_opposite(x);
}

} // verus!
