//! Interpolation: the inverse of the circle FFT.

use vstd::arithmetic::div_mod::{
    lemma_add_mod_noop, lemma_fundamental_div_mod, lemma_mod_bound, lemma_small_mod,
};
use vstd::arithmetic::mul::lemma_mul_is_commutative;
use vstd::arithmetic::power2::{lemma2_to64, lemma_pow2_pos, pow2};
use vstd::prelude::*;

use super::circle_poly::{is_pow2_len, CircleCoefficients, CircleEvaluation};
use super::domain::CircleDomain;
use super::fft::{
    block_of, butterfly_layer, fft_full_layer, folded_at, ibutterfly_layer, layer_fits,
    lemma_block_places, lemma_butterfly_step, lemma_circle_layer_fits, lemma_line_layer_fits,
    lemma_start, place, small_circle_twiddles,
};
use super::fold::poly_at;
use super::twiddles::{
    circle_twiddle, circle_twiddles_from_line_twiddles, domain_line_twiddles_from_tree, TwiddleTree,
};
use crate::fields::m31::{m31, M31, P};
use crate::fields::{
    lemma_add_swap_middle, lemma_distrib_right, lemma_distrib_sub_right, lemma_mul_opposite,
    lemma_opposite_sum, lemma_opposite_twice, Field,
};
use crate::utils::{lemma_pow2_bound, lemma_pow2_double, lemma_pow2_le};

verus! {

/// Every entry times `s`.
pub open spec fn scale_all(v: Seq<M31>, s: M31) -> Seq<M31> {
    v.map_values(|a: M31| a.times(s))
}

/// `2^i` as a field element.
pub open spec fn two_pow(i: nat) -> M31
    decreases i,
{
    if i == 0 {
        M31::one_el()
    } else {
        two_pow((i - 1) as nat).plus(two_pow((i - 1) as nat))
    }
}

pub proof fn lemma_two_pow_value(i: nat)
    ensures
        two_pow(i) == m31(pow2(i) as int),
    decreases i,
{
    if i == 0 {
        lemma2_to64();
    } else {
        let i1 = (i - 1) as nat;
        lemma_two_pow_value(i1);
        lemma_pow2_double(i);
        lemma_mod_bound(pow2(i1) as int, P as int);
        lemma_add_mod_noop(pow2(i1) as int, pow2(i1) as int, P as int);
    }
}

pub proof fn lemma_two_pow_nonzero(i: nat)
    requires
        i <= 31,
    ensures
        m31(pow2(i) as int) != M31::zero_el(),
{
    lemma2_to64();
    if i < 31 {
        lemma_pow2_le(i, 30);
        lemma_small_mod(pow2(i), P as nat);
        lemma_pow2_pos(i);
    }
}

/// Undoing one butterfly, for a twiddle `t` with inverse `u`: the sum and the scaled difference
/// give back twice the first value.
proof fn lemma_undo_low(w0: M31, w1: M31, t: M31, u: M31, s: M31)
    requires
        t.times(u) == M31::one_el(),
    ensures
        w0.plus(w1).times(s).plus(w0.minus(w1).times(u).times(s).times(t)) == w0.times(s.plus(s)),
        w0.plus(w1).times(s).minus(w0.minus(w1).times(u).times(s).times(t)) == w1.times(s.plus(s)),
{
    let d = w0.minus(w1);
    // ((d u) s) t = d s
    let x = d.times(u).times(s).times(t);
    M31::law_mul_assoc(d.times(u), s, t);
    M31::law_mul_comm(s, t);
    M31::law_mul_assoc(d, u, t.times(s));
    M31::law_mul_assoc(u, t, s);
    M31::law_mul_comm(u, t);
    M31::law_mul_comm(M31::one_el(), s);
    M31::law_mul_one(s);
    M31::law_mul_comm(d, s);
    M31::law_mul_comm(d, s.canon());
    M31::law_canon_args(s, d);
    assert(x == d.times(s));
    // (w0 + w1) + (w0 - w1) = w0 + w0
    M31::law_sub(w0, w1);
    lemma_distrib_right(w0.plus(w1), d, s);
    lemma_add_swap_middle(w0, w1, w0, w1.opposite());
    M31::law_add_opposite(w1);
    M31::law_add_zero(w0.plus(w0));
    M31::law_canon_results(w0, w0);
    lemma_distrib_right(w0, w0, s);
    M31::law_distrib(w0, s, s);
    // (w0 + w1) - (w0 - w1) = w1 + w1
    lemma_distrib_sub_right(w0.plus(w1), d, s);
    M31::law_sub(w0.plus(w1), d);
    lemma_opposite_sum(w0, w1.opposite());
    lemma_opposite_twice(w1);
    lemma_add_swap_middle(w0, w1, w0.opposite(), w1.canon());
    M31::law_add_opposite(w0);
    M31::law_add_comm(w1, w1.canon());
    M31::law_canon_args(w1, w1);
    M31::law_add_comm(M31::zero_el(), w1.plus(w1));
    M31::law_add_zero(w1.plus(w1));
    M31::law_canon_results(w1, w1);
    lemma_distrib_right(w1, w1, s);
    M31::law_distrib(w1, s, s);
}

/// Entry by entry, `t` and `u` are inverses.
pub open spec fn inverse_twiddles(tw: Seq<M31>, itw: Seq<M31>) -> bool {
    &&& tw.len() == itw.len()
    &&& forall|q: int| 0 <= q < tw.len() ==> tw[q].times(#[trigger] itw[q]) == M31::one_el()
}

/// A layer undoes the inverse layer, up to a factor of two.
proof fn lemma_layer_undo(w: Seq<M31>, n: nat, i: nat, tw: Seq<M31>, itw: Seq<M31>, s: M31)
    requires
        w.len() == pow2(n),
        i < n,
        tw.len() * pow2(i + 1) == w.len(),
        inverse_twiddles(tw, itw),
    ensures
        butterfly_layer(scale_all(ibutterfly_layer(w, i, itw), s), i, tw) == scale_all(
            w,
            s.plus(s),
        ),
{
    let inner = scale_all(ibutterfly_layer(w, i, itw), s);
    let left = butterfly_layer(inner, i, tw);
    let right = scale_all(w, s.plus(s));
    let st = pow2(i) as int;
    lemma_pow2_pos(i);
    lemma_pow2_double(i + 1);
    assert forall|j: int| 0 <= j < w.len() implies left[j] == right[j] by {
        let h = j / (2 * st);
        lemma_fundamental_div_mod(j, 2 * st);
        lemma_mod_bound(j, 2 * st);
        vstd::arithmetic::div_mod::lemma_div_pos_is_pos(j, 2 * st);
        assert(h < tw.len()) by (nonlinear_arith)
            requires
                (2 * st) * h <= j,
                j < tw.len() * (2 * st),
                st > 0,
        ;
        assert(h * (2 * st) + 2 * st <= w.len()) by (nonlinear_arith)
            requires
                h + 1 <= tw.len(),
                tw.len() * (2 * st) == w.len(),
                st > 0,
        ;
        lemma_mul_is_commutative(h, 2 * st);
        let l0 = j - h * (2 * st);
        let l = if l0 < st {
            l0
        } else {
            l0 - st
        };
        lemma_block_places(h, l, i);
        let q = h * (2 * st) + l;
        assert(tw[h].times(itw[h]) == M31::one_el());
        lemma_undo_low(w[q], w[q + st], tw[h], itw[h], s);
        assert(inner[q] == w[q].plus(w[q + st]).times(s));
        assert(inner[q + st] == w[q].minus(w[q + st]).times(itw[h]).times(s));
    }
    assert(left =~= right);
}

/// What the inverse layers below `i` have made of the values: at every point, folding gives back
/// the value there times `2^i`.
pub open spec fn unfolded(
    domain: CircleDomain,
    values: Seq<M31>,
    w: Seq<M31>,
    i: nat,
) -> bool {
    forall|j: int, s: M31| #[trigger]
        scaled_place(j, s) && 0 <= j < domain.size_s() ==> folded_at(
            scale_all(w, s),
            i,
            j,
            domain.reversed_at(j),
        ) == values[j].times(two_pow(i).times(s))
}

/// Names a place and a factor.
pub open spec fn scaled_place(j: int, s: M31) -> bool {
    true
}

pub proof fn lemma_unfolded_start(domain: CircleDomain, values: Seq<M31>)
    requires
        values.len() == domain.size_s(),
    ensures
        unfolded(domain, values, values, 0),
{
    lemma2_to64();
    assert forall|j: int, s: M31| #[trigger]
        scaled_place(j, s) && 0 <= j < domain.size_s() implies folded_at(
        scale_all(values, s),
        0,
        j,
        domain.reversed_at(j),
    ) == values[j].times(two_pow(0).times(s)) by {
        assert(j / 1 == j);
        M31::law_mul_comm(M31::one_el(), s);
        M31::law_mul_one(s);
        M31::law_mul_comm(values[j], s.canon());
        M31::law_canon_args(s, values[j]);
        M31::law_mul_comm(values[j], s);
    }
}

pub proof fn lemma_unfolded_step(
    domain: CircleDomain,
    values: Seq<M31>,
    w: Seq<M31>,
    i: nat,
    tw: Seq<M31>,
    itw: Seq<M31>,
)
    requires
        domain.wf(),
        values.len() == domain.size_s(),
        w.len() == domain.size_s(),
        i < domain.log_size_s(),
        layer_fits(domain, i, tw),
        inverse_twiddles(tw, itw),
        unfolded(domain, values, w, i),
    ensures
        unfolded(domain, values, ibutterfly_layer(w, i, itw), i + 1),
{
    let n = domain.log_size_s();
    let w2 = ibutterfly_layer(w, i, itw);
    assert forall|j: int, s: M31| #[trigger]
        scaled_place(j, s) && 0 <= j < domain.size_s() implies folded_at(
        scale_all(w2, s),
        i + 1,
        j,
        domain.reversed_at(j),
    ) == values[j].times(two_pow(i + 1).times(s)) by {
        let p = domain.reversed_at(j);
        assert(place(j));
        lemma_butterfly_step(scale_all(w2, s), n, i, tw, j, p);
        lemma_layer_undo(w, n, i, tw, itw, s);
        assert(scaled_place(j, s.plus(s)));
        let t = two_pow(i);
        M31::law_distrib(t, s, s);
        lemma_distrib_right(t, t, s);
    }
}

/// The inverses of the circle twiddles of a domain.
fn inverse_circle_twiddles(domain: CircleDomain, tree: &TwiddleTree, iline: &Vec<&[M31]>) -> (r: (
    Vec<M31>,
    Ghost<Seq<M31>>,
))
    requires
        tree.wf(),
        domain.wf(),
        domain.half_coset.doubling_of_s(tree.root_coset),
        domain.half_coset.log_size <= 1 ==> domain.half_coset.initial.y.canon() != M31::zero_el(),
        iline.len() == domain.half_coset.log_size,
        iline.len() > 0 ==> iline@[0]@ == tree.itwiddles@.subrange(
            tree.itwiddles.len() - pow2(domain.half_coset.log_size as nat),
            tree.itwiddles.len() - pow2((domain.half_coset.log_size - 1) as nat),
        ),
    ensures
        layer_fits(domain, 0, r.1@),
        inverse_twiddles(r.1@, r.0@),
{
    let l = domain.half_coset.log_size;
    proof {
        lemma_pow2_bound(l as nat);
        lemma_pow2_le(l as nat, tree.root_coset.log_size as nat);
    }
    if l >= 2 {
        proof {
            lemma_pow2_double(l as nat);
            lemma_pow2_double((l - 1) as nat);
        }
        let itw = circle_twiddles_from_line_twiddles(iline[0]);
        let ghost first = tree.twiddles@.subrange(
            tree.twiddles.len() - pow2(l as nat),
            tree.twiddles.len() - pow2((l - 1) as nat),
        );
        let ghost tw = Seq::new((2 * first.len()) as nat, |q: int| circle_twiddle(first, q));
        proof {
            lemma_circle_layer_fits(tree.twiddles@, tree.root_coset, domain, first, tw);
            assert forall|q: int| 0 <= q < tw.len() implies tw[q].times(#[trigger] itw@[q])
                == M31::one_el() by {
                let a = q / 4;
                let off = tree.twiddles.len() - pow2(l as nat);
                let ifirst = iline@[0]@;
                assert(first[2 * a].times(ifirst[2 * a]) == M31::one_el()) by {
                    assert(tree.twiddles@[off + 2 * a].times(tree.itwiddles@[off + 2 * a])
                        == M31::one_el());
                }
                assert(first[2 * a + 1].times(ifirst[2 * a + 1]) == M31::one_el()) by {
                    assert(tree.twiddles@[off + 2 * a + 1].times(tree.itwiddles@[off + 2 * a + 1])
                        == M31::one_el());
                }
                lemma_opposite_product(first[2 * a], ifirst[2 * a]);
                lemma_opposite_product(first[2 * a + 1], ifirst[2 * a + 1]);
            }
        }
        (itw, Ghost(tw))
    } else {
        let tw = small_circle_twiddles(domain);
        let y = domain.half_coset.initial.y;
        let u = y.inverse();
        proof {
            lemma2_to64();
            lemma_opposite_product(y, u);
        }
        if l == 0 {
            let itw: Vec<M31> = vec![u];
            (itw, Ghost(tw@))
        } else {
            let itw: Vec<M31> = vec![u, u.neg()];
            (itw, Ghost(tw@))
        }
    }
}

/// `(-a)(-b) = a b`.
pub proof fn lemma_opposite_product(a: M31, b: M31)
    ensures
        a.opposite().times(b.opposite()) == a.times(b),
{
    lemma_mul_opposite(a.opposite(), b);
    lemma_mul_opposite(a, b);
    lemma_opposite_twice(a.times(b));
    M31::law_canon_results(a, b);
}

/// The circle iFFT: the coefficients of the polynomial with the given values on a domain.
pub fn interpolate_scalar(eval: CircleEvaluation, twiddles: &TwiddleTree) -> (r: CircleCoefficients)
    requires
        eval.wf(),
        twiddles.wf(),
        eval.domain.half_coset.doubling_of_s(twiddles.root_coset),
        eval.domain.half_coset.log_size <= 1 ==> eval.domain.half_coset.initial.y.canon()
            != M31::zero_el(),
    ensures
        r.wf(),
        r.log_size == eval.domain.log_size_s(),
        forall|j: int|
            0 <= j < eval.values.len() ==> poly_at(
                r.coeffs@,
                r.log_size as nat,
                eval.domain.reversed_at(j).x,
                eval.domain.reversed_at(j).y,
            ) == #[trigger] eval.values@[j].canon(),
        forall|k: int| 0 <= k < r.coeffs.len() ==> (#[trigger] r.coeffs@[k]).canon() == r.coeffs@[k],
{
    let domain = eval.domain;
    let n = domain.log_size();
    let ghost v0 = eval.values@;
    let mut values: Vec<M31> = eval.values;
    let len = values.len();
    proof {
        lemma_pow2_bound(n as nat);
        lemma_pow2_le(
            domain.half_coset.log_size as nat,
            twiddles.root_coset.log_size as nat,
        );
    }
    let iline = domain_line_twiddles_from_tree(domain, &twiddles.itwiddles);
    let (icircle, Ghost(circle)) = inverse_circle_twiddles(domain, twiddles, &iline);
    proof {
        lemma2_to64();
        lemma_mul_is_commutative(icircle.len() as int, pow2(1) as int);
        lemma_unfolded_start(domain, v0);
        lemma_unfolded_step(domain, v0, v0, 0, circle, icircle@);
    }
    fft_full_layer(&mut values, 0, icircle.as_slice(), true);
    let mut i: u32 = 1;
    while i < n
        invariant
            1 <= i <= n,
            n == domain.log_size_s(),
            domain.wf(),
            twiddles.wf(),
            domain.half_coset.doubling_of_s(twiddles.root_coset),
            iline.len() == domain.half_coset.log_size,
            forall|k: int|
                0 <= k < iline.len() ==> (#[trigger] iline@[k])@ == twiddles.itwiddles@.subrange(
                    twiddles.itwiddles.len() - pow2((domain.half_coset.log_size - k) as nat),
                    twiddles.itwiddles.len() - pow2((domain.half_coset.log_size - 1 - k) as nat),
                ),
            v0.len() == len,
            values.len() == len,
            len == domain.size_s(),
            len <= 0x8000_0000,
            unfolded(domain, v0, values@, i as nat),
        decreases n - i,
    {
        let itw = iline[i as usize - 1];
        let ghost l = domain.half_coset.log_size as nat;
        let ghost tw = twiddles.twiddles@.subrange(
            twiddles.twiddles.len() - pow2((l - i + 1) as nat),
            twiddles.twiddles.len() - pow2((l - i) as nat),
        );
        proof {
            lemma_pow2_double((l - i + 1) as nat);
            lemma_pow2_le((l - i + 1) as nat, twiddles.root_coset.log_size as nat);
            lemma_line_layer_fits(twiddles.twiddles@, twiddles.root_coset, domain, i as nat, tw);
            assert(tw.len() == itw.len());
            assert forall|q: int| 0 <= q < tw.len() implies tw[q].times(#[trigger] itw@[q])
                == M31::one_el() by {
                let off = twiddles.twiddles.len() - pow2((l - i + 1) as nat);
                assert(twiddles.twiddles@[off + q].times(twiddles.itwiddles@[off + q])
                    == M31::one_el());
            }
            lemma_unfolded_step(domain, v0, values@, i as nat, tw, itw@);
            lemma_mul_is_commutative(itw.len() as int, pow2((i + 1) as nat) as int);
        }
        fft_full_layer(&mut values, i, itw, true);
        i = i + 1;
    }
    // Divide all values by 2^n.
    let size = M31::from_u32_unchecked(len as u32);
    proof {
        lemma_two_pow_nonzero(n as nat);
    }
    let inv = size.inverse();
    let ghost w = values@;
    for k in 0..len
        invariant
            values.len() == len,
            w.len() == len,
            forall|j: int| 0 <= j < k ==> #[trigger] values@[j] == w[j].times(inv),
            forall|j: int| k <= j < len ==> #[trigger] values@[j] == w[j],
    {
        let x = values[k].mul(inv);
        values.set(k, x);
    }
    proof {
        assert(values@ =~= scale_all(w, inv));
        lemma_two_pow_value(n as nat);
        M31::law_canon_args(size, inv);
        assert(two_pow(n as nat) == size.canon());
        assert forall|j: int| 0 <= j < len implies poly_at(
            values@,
            n as nat,
            domain.reversed_at(j).x,
            domain.reversed_at(j).y,
        ) == #[trigger] v0[j].canon() by {
            assert(scaled_place(j, inv));
            lemma_start(values@, n as nat);
            assert(block_of(values@, n as nat, j) == values@);
            M31::law_mul_one(v0[j]);
        }
        assert forall|k: int| 0 <= k < len implies (#[trigger] values@[k]).canon() == values@[k] by {
            M31::law_canon_results(w[k], inv);
        }
        assert(is_pow2_len(values@.len()));
    }
    CircleCoefficients { coeffs: values, log_size: n }
}

} // verus!
