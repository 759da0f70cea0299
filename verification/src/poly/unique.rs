//! A polynomial is determined by its values on a domain.

use vstd::arithmetic::div_mod::{lemma_fundamental_div_mod, lemma_mod_bound};
use vstd::arithmetic::mul::lemma_mul_is_commutative;
use vstd::arithmetic::power2::{lemma2_to64, lemma_pow2_adds, lemma_pow2_pos, pow2};
use vstd::prelude::*;

use super::circle_poly::CircleEvaluation;
use super::domain::{
    canonic_domain, lemma_canonic_domain_wf, lemma_line_mapping, mapping_at, CircleDomain,
};
use super::extension::{evaluates, interpolates};
use super::fft::{
    block_of, butterfly_layer, folded_at, layer_fits, lemma_block_places, lemma_butterfly_step,
    lemma_circle_layer_values, lemma_circle_values_fit, lemma_layer_canonical, lemma_same_doubling,
    lemma_start, low_half, place,
};
use super::fold::poly_at;
use super::ifft::lemma_opposite_product;
use super::twiddles::{
    circle_twiddle, layer_twiddle, lemma_gen_point_x_zero, lemma_half_odds_nonzero, tower_index,
    TwiddleTree,
};
use crate::circle::lemma_gen_point_quarter_turn;
use crate::fields::m31::M31;
use crate::fields::{lemma_add_cancel, lemma_add_swap_middle, lemma_mul_zero, Field};
use crate::utils::{bit_rev, lemma_bit_rev_range, lemma_pow2_double, lemma_pow2_le};

verus! {

/// The twiddles of layer `i` of the FFT on a domain.
pub open spec fn domain_layer(domain: CircleDomain, i: nat) -> Seq<M31> {
    let h = domain.half_coset;
    let l = h.log_size as nat;
    if i == 0 {
        Seq::new(pow2(l), |q: int| h.at_s(bit_rev(q, l)).y)
    } else {
        Seq::new(
            pow2((l - i) as nat),
            |q: int| h.repeated_double_s((i - 1) as nat).at_s(bit_rev(q, (l - i) as nat)).x,
        )
    }
}

/// No factor of the FFT basis vanishes on the domain.
pub open spec fn regular(domain: CircleDomain) -> bool {
    forall|i: nat, q: int|
        #![trigger domain_layer(domain, i)[q]]
        i <= domain.half_coset.log_size && 0 <= q < domain_layer(domain, i).len()
            ==> domain_layer(domain, i)[q].canon() != M31::zero_el()
}

proof fn lemma_domain_layer_fits(domain: CircleDomain, i: nat)
    requires
        domain.wf(),
        i <= domain.half_coset.log_size,
    ensures
        layer_fits(domain, i, domain_layer(domain, i)),
{
    let l = domain.half_coset.log_size as nat;
    let tw = domain_layer(domain, i);
    if i == 0 {
        lemma_circle_values_fit(domain, tw);
    } else {
        let m = (l - i) as nat;
        lemma_pow2_adds(m, i + 1);
        assert(m + (i + 1) == domain.log_size_s());
        assert forall|j: int| #[trigger] place(j) && 0 <= j < domain.size_s() implies ({
            let p = domain.reversed_at(j);
            let t = tw[j / (pow2(i + 1) as int)];
            mapping_at(p.x, p.y, i as int) == if low_half(j, i) {
                t
            } else {
                t.opposite()
            }
        }) by {
            lemma_line_mapping(domain, j, i);
            let s2 = pow2(i + 1) as int;
            lemma_pow2_pos(i + 1);
            lemma_fundamental_div_mod(j, s2);
            lemma_mod_bound(j, s2);
            vstd::arithmetic::div_mod::lemma_div_pos_is_pos(j, s2);
            let h = j / s2;
            assert(h < pow2(m)) by (nonlinear_arith)
                requires
                    s2 * h <= j,
                    j < pow2(m) * s2,
                    s2 > 0,
            ;
        }
    }
}

/// The values after the layers from the top down to `i`.
spec fn descend(domain: CircleDomain, c: Seq<M31>, n: nat, i: nat) -> Seq<M31>
    decreases n - i,
{
    if i >= n {
        c
    } else {
        butterfly_layer(descend(domain, c, n, i + 1), i, domain_layer(domain, i))
    }
}

proof fn lemma_descend(domain: CircleDomain, c: Seq<M31>, i: nat, j: int)
    requires
        domain.wf(),
        c.len() == domain.size_s(),
        i <= domain.log_size_s(),
        0 <= j < c.len(),
    ensures
        descend(domain, c, domain.log_size_s(), i).len() == c.len(),
        folded_at(descend(domain, c, domain.log_size_s(), i), i, j, domain.reversed_at(j))
            == poly_at(
            c,
            domain.log_size_s(),
            domain.reversed_at(j).x,
            domain.reversed_at(j).y,
        ),
    decreases domain.log_size_s() - i,
{
    let n = domain.log_size_s();
    if i == n {
        lemma_start(c, n);
        assert(block_of(c, n, j) == c);
    } else {
        lemma_descend(domain, c, i + 1, j);
        lemma_domain_layer_fits(domain, i);
        assert(place(j));
        lemma_butterfly_step(
            descend(domain, c, n, i + 1),
            n,
            i,
            domain_layer(domain, i),
            j,
            domain.reversed_at(j),
        );
    }
}

/// Equal sums and differences come from equal terms.
proof fn lemma_butterfly_injective(a0: M31, a1: M31, b0: M31, b1: M31, t: M31)
    requires
        t.canon() != M31::zero_el(),
        a0.plus(a1.times(t)) == b0.plus(b1.times(t)),
        a0.minus(a1.times(t)) == b0.minus(b1.times(t)),
    ensures
        a0.canon() == b0.canon(),
        a1.canon() == b1.canon(),
{
    let x = a1.times(t);
    let y = b1.times(t);
    // Adding the two equations: a0 + a0 = b0 + b0.
    M31::law_sub(a0, x);
    M31::law_sub(b0, y);
    lemma_add_swap_middle(a0, x, a0, x.opposite());
    lemma_add_swap_middle(b0, y, b0, y.opposite());
    M31::law_add_opposite(x);
    M31::law_add_opposite(y);
    M31::law_add_zero(a0.plus(a0));
    M31::law_add_zero(b0.plus(b0));
    M31::law_canon_results(a0, a0);
    M31::law_canon_results(b0, b0);
    lemma_halve(a0, b0);
    M31::law_canon_args(a0, x);
    M31::law_canon_args(b0, y);
    lemma_add_cancel(a0.canon(), x, y);
    M31::law_canon_results(a1, t);
    M31::law_canon_results(b1, t);
    // a1 t = b1 t
    lemma_cancel_factor(a1, b1, t);
}

/// Twice the same is the same.
proof fn lemma_halve(a: M31, b: M31)
    requires
        a.plus(a) == b.plus(b),
    ensures
        a.canon() == b.canon(),
{
    let two = M31(2);
    assert(M31(1).plus(M31(1)) == two);
    M31::law_distrib(a, M31(1), M31(1));
    M31::law_distrib(b, M31(1), M31(1));
    M31::law_mul_one(a);
    M31::law_mul_one(b);
    M31::law_canon_args(a, a);
    M31::law_canon_args(b, b);
    M31::law_add_comm(a.canon(), a);
    M31::law_add_comm(b.canon(), b);
    M31::law_canon_args(a, a.canon());
    M31::law_canon_args(b, b.canon());
    assert(two.canon() != M31::zero_el());
    lemma_cancel_factor(a, b, two);
}

/// A non-zero factor can be cancelled.
proof fn lemma_cancel_factor(a: M31, b: M31, t: M31)
    requires
        t.canon() != M31::zero_el(),
        a.times(t) == b.times(t),
    ensures
        a.canon() == b.canon(),
{
    M31::law_inverse(t);
    let u = choose|u: M31| t.times(u) == M31::one_el();
    M31::law_mul_assoc(a, t, u);
    M31::law_mul_assoc(b, t, u);
    M31::law_mul_one(a);
    M31::law_mul_one(b);
}

proof fn lemma_layer_injective(domain: CircleDomain, a: Seq<M31>, b: Seq<M31>, i: nat)
    requires
        domain.wf(),
        regular(domain),
        i <= domain.half_coset.log_size,
        a.len() == domain.size_s(),
        b.len() == domain.size_s(),
        butterfly_layer(a, i, domain_layer(domain, i)) == butterfly_layer(
            b,
            i,
            domain_layer(domain, i),
        ),
    ensures
        forall|j: int| 0 <= j < a.len() ==> (#[trigger] a[j]).canon() == b[j].canon(),
{
    let tw = domain_layer(domain, i);
    lemma_domain_layer_fits(domain, i);
    let st = pow2(i) as int;
    lemma_pow2_pos(i);
    lemma_pow2_double(i + 1);
    assert forall|j: int| 0 <= j < a.len() implies (#[trigger] a[j]).canon() == b[j].canon() by {
        let h = j / (2 * st);
        lemma_fundamental_div_mod(j, 2 * st);
        lemma_mod_bound(j, 2 * st);
        vstd::arithmetic::div_mod::lemma_div_pos_is_pos(j, 2 * st);
        assert(h < tw.len()) by (nonlinear_arith)
            requires
                (2 * st) * h <= j,
                j < tw.len() * (2 * st),
                st > 0,
        ;
        assert(h * (2 * st) + 2 * st <= a.len()) by (nonlinear_arith)
            requires
                h + 1 <= tw.len(),
                tw.len() * (2 * st) == a.len(),
                st > 0,
        ;
        lemma_mul_is_commutative(h, 2 * st);
        let l0 = j - h * (2 * st);
        let l = if l0 < st {
            l0
        } else {
            l0 - st
        };
        lemma_block_places(h, l, i);
        let q = h * (2 * st) + l;
        let wa = butterfly_layer(a, i, tw);
        let wb = butterfly_layer(b, i, tw);
        assert(wa[q] == wb[q] && wa[q + st] == wb[q + st]);
        assert(tw[h].canon() != M31::zero_el());
        lemma_butterfly_injective(a[q], a[q + st], b[q], b[q + st], tw[h]);
    }
}

/// From equal results the equal stages above follow.
proof fn lemma_ascend(domain: CircleDomain, a: Seq<M31>, b: Seq<M31>, i: nat)
    requires
        domain.wf(),
        regular(domain),
        a.len() == domain.size_s(),
        b.len() == domain.size_s(),
        i <= domain.log_size_s(),
        forall|j: int|
            0 <= j < a.len() ==> (#[trigger] descend(domain, a, domain.log_size_s(), i)[j]).canon()
                == descend(domain, b, domain.log_size_s(), i)[j].canon(),
    ensures
        forall|j: int| 0 <= j < a.len() ==> (#[trigger] a[j]).canon() == b[j].canon(),
    decreases domain.log_size_s() - i,
{
    let n = domain.log_size_s();
    if i < n {
        let (a1, b1) = (descend(domain, a, n, i + 1), descend(domain, b, n, i + 1));
        let tw = domain_layer(domain, i);
        lemma_pow2_pos(n);
        lemma_descend(domain, a, i + 1, 0);
        lemma_descend(domain, b, i + 1, 0);
        let (wa, wb) = (butterfly_layer(a1, i, tw), butterfly_layer(b1, i, tw));
        assert(wa =~= wb) by {
            assert forall|j: int| 0 <= j < a.len() implies wa[j] == wb[j] by {
                lemma_layer_canonical(a1, i, tw, j);
                lemma_layer_canonical(b1, i, tw, j);
                assert(descend(domain, a, n, i)[j].canon() == descend(domain, b, n, i)[j].canon());
            }
        }
        lemma_layer_injective(domain, a1, b1, i);
        lemma_ascend(domain, a, b, i + 1);
    } else {
        assert forall|j: int| 0 <= j < a.len() implies (#[trigger] a[j]).canon() == b[j].canon() by {
            assert(descend(domain, a, n, i)[j] == a[j]);
        }
    }
}

/// Two polynomials with the same values on a domain have the same coefficients. In particular,
/// interpolating the evaluations of a polynomial gives the polynomial back.
pub proof fn lemma_values_determine_polynomial(domain: CircleDomain, a: Seq<M31>, b: Seq<M31>)
    requires
        domain.wf(),
        regular(domain),
        a.len() == domain.size_s(),
        b.len() == domain.size_s(),
        forall|j: int|
            0 <= j < domain.size_s() ==> #[trigger] poly_at(
                a,
                domain.log_size_s(),
                domain.reversed_at(j).x,
                domain.reversed_at(j).y,
            ).canon() == poly_at(
                b,
                domain.log_size_s(),
                domain.reversed_at(j).x,
                domain.reversed_at(j).y,
            ).canon(),
    ensures
        forall|k: int| 0 <= k < a.len() ==> (#[trigger] a[k]).canon() == b[k].canon(),
{
    let n = domain.log_size_s();
    lemma2_to64();
    lemma_pow2_pos(n);
    assert forall|j: int| 0 <= j < a.len() implies (#[trigger] descend(domain, a, n, 0)[j]).canon()
        == descend(domain, b, n, 0)[j].canon() by {
        lemma_descend(domain, a, 0, j);
        lemma_descend(domain, b, 0, j);
        assert(j / 1 == j);
        assert(folded_at(descend(domain, a, n, 0), 0, j, domain.reversed_at(j)) == descend(
            domain,
            a,
            n,
            0,
        )[j]);
        assert(folded_at(descend(domain, b, n, 0), 0, j, domain.reversed_at(j)) == descend(
            domain,
            b,
            n,
            0,
        )[j]);
    }
    lemma_ascend(domain, a, b, 0);
}

/// On a canonical domain no factor vanishes.
pub proof fn lemma_canonic_domain_regular(log_size: nat)
    requires
        0 < log_size <= 30,
    ensures
        regular(canonic_domain(log_size)),
{
    let domain = canonic_domain(log_size);
    let h = domain.half_coset;
    let l = h.log_size as nat;
    lemma_canonic_domain_wf(log_size);
    lemma_half_odds_nonzero(l);
    assert((l + 2) as nat == log_size + 1);
    assert forall|i: nat, q: int|
        #![trigger domain_layer(domain, i)[q]]
        i <= l && 0 <= q < domain_layer(domain, i).len() implies domain_layer(
        domain,
        i,
    )[q].canon() != M31::zero_el() by {
        let t = domain_layer(domain, i)[q];
        if i == 0 {
            let k = bit_rev(q, l);
            lemma_bit_rev_range(q, l);
            let idx = h.index_s(k);
            crate::circle::lemma_gen_point_canonical(idx);
            if t == M31::zero_el() {
                // y = 0 would put x = 0 a quarter turn further.
                lemma_gen_point_quarter_turn(idx);
                lemma_gen_point_x_zero(idx + 0x2000_0000);
                lemma_odd_index(l, k);
            }
        } else {
            assert(t == layer_twiddle(h, (l - i) as int, q));
            let c = h.repeated_double_s((i - 1) as nat);
            crate::circle::lemma_gen_point_canonical(c.index_s(bit_rev(q, (l - i) as nat)));
        }
    }
}

/// What has an inverse is not zero.
proof fn lemma_invertible_nonzero(a: M31, b: M31)
    requires
        a.times(b) == M31::one_el(),
    ensures
        a.canon() != M31::zero_el(),
        a.opposite().canon() != M31::zero_el(),
{
    M31::law_canon_args(a, b);
    lemma_opposite_product(a, b);
    M31::law_canon_args(a.opposite(), b.opposite());
    lemma_mul_zero(b);
    lemma_mul_zero(b.opposite());
}

/// Whether the twiddles of a tree and their inverses serve a domain.
spec fn serves(tree: TwiddleTree, domain: CircleDomain) -> bool {
    &&& tree.wf()
    &&& domain.wf()
    &&& domain.half_coset.doubling_of_s(tree.root_coset)
    &&& domain.half_coset.log_size <= 1 ==> domain.half_coset.initial.y.canon() != M31::zero_el()
}

/// The factors of the upper layers are in the tree.
proof fn lemma_line_layer_nonzero(tree: TwiddleTree, domain: CircleDomain, i: nat, q: int)
    requires
        serves(tree, domain),
        0 < i <= domain.half_coset.log_size,
        0 <= q < domain_layer(domain, i).len(),
    ensures
        domain_layer(domain, i)[q].canon() != M31::zero_el(),
{
    let h = domain.half_coset;
    let l = h.log_size as nat;
    let root = tree.root_coset;
    let big = root.log_size as nat;
    let m = (l - i) as nat;
    let t = domain_layer(domain, i)[q];
    lemma_same_doubling(root, h, (i - 1) as nat, (big - 1 - m) as nat);
    assert(t == layer_twiddle(root, m as int, q));
    let k = tower_index(big, m as int, q);
    lemma_pow2_le((m + 1) as nat, big);
    lemma_pow2_double((m + 1) as nat);
    assert(tree.twiddles@[k] == t);
    assert(tree.twiddles@[k].times(tree.itwiddles@[k]) == M31::one_el());
    lemma_invertible_nonzero(t, tree.itwiddles@[k]);
}

/// Those of the lowest layer are, up to their signs.
proof fn lemma_circle_layer_nonzero(tree: TwiddleTree, domain: CircleDomain, q: int)
    requires
        serves(tree, domain),
        domain.half_coset.log_size >= 2,
        0 <= q < domain_layer(domain, 0).len(),
    ensures
        domain_layer(domain, 0)[q].canon() != M31::zero_el(),
{
    let l = domain.half_coset.log_size as nat;
    let root = tree.root_coset;
    lemma_pow2_le(l, root.log_size as nat);
    let off = tree.twiddles.len() - pow2(l);
    let first = tree.twiddles@.subrange(off, tree.twiddles.len() - pow2((l - 1) as nat));
    lemma_pow2_double(l);
    lemma_pow2_double((l - 1) as nat);
    let tw = Seq::new((2 * first.len()) as nat, |k: int| circle_twiddle(first, k));
    lemma_circle_layer_values(tree.twiddles@, root, domain, first, tw);
    assert(tw[q] == domain_layer(domain, 0)[q]);
    let a = q / 4;
    assert(tree.twiddles@[off + 2 * a].times(tree.itwiddles@[off + 2 * a]) == M31::one_el());
    assert(tree.twiddles@[off + 2 * a + 1].times(tree.itwiddles@[off + 2 * a + 1])
        == M31::one_el());
    lemma_invertible_nonzero(first[2 * a], tree.itwiddles@[off + 2 * a]);
    lemma_invertible_nonzero(first[2 * a + 1], tree.itwiddles@[off + 2 * a + 1]);
}

/// Those of a domain of two or four points are the first of them, up to its sign.
#[verifier::spinoff_prover]
#[verifier::rlimit(50)]
proof fn lemma_small_layer_nonzero(tree: TwiddleTree, domain: CircleDomain, q: int)
    requires
        serves(tree, domain),
        domain.half_coset.log_size <= 1,
        0 <= q < domain_layer(domain, 0).len(),
    ensures
        domain_layer(domain, 0)[q].canon() != M31::zero_el(),
{
    let h = domain.half_coset;
    let t = domain_layer(domain, 0)[q];
    lemma2_to64();
    reveal_with_fuel(bit_rev, 2);
    assert(h.index_s(0) == h.initial_index.0);
    let y = h.initial.y;
    if q == 0 {
        assert(t == y);
    } else {
        crate::circle::lemma_gen_point_half_turn(h.initial_index.0 as nat);
        assert(bit_rev(1, 1) == 1);
        assert(h.index_s(1) == h.initial_index.0 + 0x4000_0000);
        assert(t == y.opposite());
        if t.canon() == M31::zero_el() {
            M31::law_add_opposite(y);
            M31::law_canon_args(y, t);
            M31::law_add_zero(y);
            M31::law_canon_args(y, M31::zero_el());
        }
    }
}

/// On a domain that the twiddles of a tree serve no factor vanishes: each has its inverse there.
pub proof fn lemma_served_domain_regular(tree: TwiddleTree, domain: CircleDomain)
    requires
        tree.wf(),
        domain.wf(),
        domain.half_coset.doubling_of_s(tree.root_coset),
        domain.half_coset.log_size <= 1 ==> domain.half_coset.initial.y.canon() != M31::zero_el(),
    ensures
        regular(domain),
{
    assert(serves(tree, domain));
    assert forall|i: nat, q: int|
        #![trigger domain_layer(domain, i)[q]]
        i <= domain.half_coset.log_size && 0 <= q < domain_layer(domain, i).len() implies
    domain_layer(domain, i)[q].canon() != M31::zero_el() by {
        if i > 0 {
            lemma_line_layer_nonzero(tree, domain, i, q);
        } else if domain.half_coset.log_size >= 2 {
            lemma_circle_layer_nonzero(tree, domain, q);
        } else {
            lemma_small_layer_nonzero(tree, domain, q);
        }
    }
}

/// The indices of the points of a canonical half coset are odd multiples of a small power of two.
proof fn lemma_odd_index(l: nat, k: int)
    requires
        l <= 29,
        k >= 0,
    ensures
        (canonic_domain(l + 1).half_coset.index_s(k) + 0x2000_0000) % 0x4000_0000 != 0x2000_0000,
{
    let h = canonic_domain(l + 1).half_coset;
    lemma_canonic_domain_wf(l + 1);
    let e = (29 - l) as nat;
    let pe = pow2(e) as int;
    lemma2_to64();
    lemma_pow2_adds(e, 2);
    lemma_pow2_adds(e, (30 - e) as nat);
    lemma_pow2_pos(e);
    let pr = pow2((30 - e) as nat) as int;
    assert(pe * pr == 0x4000_0000);
    crate::circle::lemma_step_small((l + 2) as nat);
    assert(h.initial_index.0 as int == pe);
    assert(crate::circle::subgroup_step(l) as int == pe * 4);
    assert(k * (pe * 4) >= 0) by (nonlinear_arith)
        requires
            k >= 0,
            pe >= 0,
    ;
    let idx = h.index_s(k) as int;
    assert(idx == pe * (1 + 4 * k)) by (nonlinear_arith)
        requires
            idx == pe + k * (pe * 4),
    ;
    if (idx + 0x2000_0000) % 0x4000_0000 == 0x2000_0000 {
        let z = idx / 0x4000_0000;
        lemma_fundamental_div_mod(idx, 0x4000_0000);
        assert(idx % 0x4000_0000 == 0);
        lemma_pow2_double((30 - e) as nat);
        let half = pow2((29 - e) as nat) as int;
        assert(pe * (1 + 4 * k) == pe * (pr * z)) by (nonlinear_arith)
            requires
                pe * (1 + 4 * k) == 0x4000_0000 * z,
                pe * pr == 0x4000_0000,
        ;
        vstd::arithmetic::mul::lemma_mul_equality_converse(pe, 1 + 4 * k, pr * z);
        assert(pr * z == 2 * (half * z)) by (nonlinear_arith)
            requires
                pr == 2 * half,
        ;
        assert(false);
    }
}

/// Interpolation undoes evaluation: on a domain where no factor vanishes, the coefficients of the
/// values of a polynomial of the domain's size are its own.
pub proof fn lemma_interpolation_undoes_evaluation(
    c: Seq<M31>,
    evals: CircleEvaluation,
    back: Seq<M31>,
)
    requires
        evals.domain.wf(),
        regular(evals.domain),
        c.len() == evals.domain.size_s(),
        evaluates(c, evals.domain.log_size_s(), evals),
        interpolates(evals, back),
    ensures
        back.len() == c.len(),
        forall|k: int| 0 <= k < c.len() ==> #[trigger] back[k] == c[k].canon(),
{
    let domain = evals.domain;
    let n = domain.log_size_s();
    assert forall|j: int| 0 <= j < domain.size_s() implies #[trigger] poly_at(
        back,
        n,
        domain.reversed_at(j).x,
        domain.reversed_at(j).y,
    ).canon() == poly_at(c, n, domain.reversed_at(j).x, domain.reversed_at(j).y).canon() by {
        let p = poly_at(c, n, domain.reversed_at(j).x, domain.reversed_at(j).y);
        assert(evals.values@[j] == p.canon());
        assert(poly_at(back, n, domain.reversed_at(j).x, domain.reversed_at(j).y)
            == evals.values@[j].canon());
        M31::law_canon_results(p, p);
    }
    lemma_values_determine_polynomial(domain, back, c);
    assert forall|k: int| 0 <= k < c.len() implies #[trigger] back[k] == c[k].canon() by {
        assert(back[k].canon() == back[k]);
    }
}

/// The same on canonical domains, all of which are such.
pub proof fn lemma_canonic_interpolation_undoes_evaluation(
    n: nat,
    c: Seq<M31>,
    evals: CircleEvaluation,
    back: Seq<M31>,
)
    requires
        0 < n <= 30,
        c.len() == pow2(n),
        evals.domain == canonic_domain(n),
        evaluates(c, n, evals),
        interpolates(evals, back),
    ensures
        back.len() == c.len(),
        forall|k: int| 0 <= k < c.len() ==> #[trigger] back[k] == c[k].canon(),
{
    lemma_canonic_domain_wf(n);
    lemma_canonic_domain_regular(n);
    lemma_interpolation_undoes_evaluation(c, evals, back);
}

/// Values have one interpolant on a domain where no factor vanishes.
pub proof fn lemma_interpolant_unique(evals: CircleEvaluation, a: Seq<M31>, b: Seq<M31>)
    requires
        evals.wf(),
        regular(evals.domain),
        interpolates(evals, a),
        interpolates(evals, b),
    ensures
        a == b,
{
    let domain = evals.domain;
    let n = domain.log_size_s();
    assert forall|j: int| 0 <= j < domain.size_s() implies #[trigger] poly_at(
        a,
        n,
        domain.reversed_at(j).x,
        domain.reversed_at(j).y,
    ).canon() == poly_at(b, n, domain.reversed_at(j).x, domain.reversed_at(j).y).canon() by {
        assert(poly_at(a, n, domain.reversed_at(j).x, domain.reversed_at(j).y)
            == evals.values@[j].canon());
    }
    lemma_values_determine_polynomial(domain, a, b);
    assert forall|k: int| 0 <= k < a.len() implies a[k] == b[k] by {
        assert(a[k].canon() == a[k]);
        assert(b[k].canon() == b[k]);
    }
    assert(a =~= b);
}

/// Evaluation undoes interpolation: the polynomial of some values takes them on the domain.
pub proof fn lemma_evaluation_undoes_interpolation(
    evals: CircleEvaluation,
    c: Seq<M31>,
    again: CircleEvaluation,
)
    requires
        evals.wf(),
        interpolates(evals, c),
        again.domain == evals.domain,
        evaluates(c, evals.domain.log_size_s(), again),
    ensures
        again.values@.len() == evals.values@.len(),
        forall|j: int|
            0 <= j < evals.values@.len() ==> #[trigger] again.values@[j] == evals.values@[j].canon(),
{
    assert forall|j: int| 0 <= j < evals.values@.len() implies #[trigger] again.values@[j]
        == evals.values@[j].canon() by {
        assert(poly_at(
            c,
            evals.domain.log_size_s(),
            evals.domain.reversed_at(j).x,
            evals.domain.reversed_at(j).y,
        ) == evals.values@[j].canon());
        M31::law_canon_results(evals.values@[j], evals.values@[j]);
    }
}

} // verus!
