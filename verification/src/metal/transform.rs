//! Whole transforms as sequences of passes, and why they are the transforms of the domain.

use vstd::arithmetic::power2::{lemma2_to64, lemma_pow2_pos, pow2};
use vstd::prelude::*;

use super::fft::{
    ifft_passes, is_pass_params, is_pass_split, layer_offset, rfft_passes, PackedTwiddles,
    PassParams,
};
use super::passes::{after_steps, pass_fits, run_pass, staged, step_layer, step_twiddles, stored};
use crate::fields::m31::{m31, M31};
use crate::fields::{inv_of, lemma_inv_exists, Field};
use crate::poly::domain::CircleDomain;
use crate::poly::fft::{
    block_of, folded_at, layer_fits, layer_s, lemma_butterfly_step, lemma_circle_layer_fits,
    lemma_layer_canonical, lemma_line_layer_fits, lemma_start, place,
};
use crate::poly::fold::{lemma_poly_at_padded, padded, poly_at};
use crate::poly::ifft::{
    inverse_twiddles, lemma_opposite_product, lemma_two_pow_nonzero, lemma_two_pow_value,
    lemma_unfolded_start, lemma_unfolded_step, scale_all, scaled_place, two_pow, unfolded,
};
use crate::poly::twiddles::{circle_twiddle, TwiddleTree};
use crate::utils::{lemma_pow2_bound, lemma_pow2_double, lemma_pow2_le};

verus! {

/// The packed twiddles of layer `i` of a transform of `2^n` values.
pub open spec fn layer_words(t: PackedTwiddles, n: nat, i: int) -> Seq<M31> {
    Seq::new(pow2((n - 1 - i) as nat), |h: int| M31(t.packed@[t.layer_offsets@[i] + h]))
}

/// The values after the inverse layers below `i`, lowest first.
pub open spec fn layers_up(t: PackedTwiddles, n: nat, v: Seq<M31>, i: nat) -> Seq<M31>
    decreases i,
{
    if i == 0 {
        v
    } else {
        layer_s(
            layers_up(t, n, v, (i - 1) as nat),
            (i - 1) as nat,
            layer_words(t, n, i - 1),
            true,
        )
    }
}

/// The values after the layers from `i` on, highest first.
pub open spec fn layers_down(t: PackedTwiddles, n: nat, v: Seq<M31>, i: nat) -> Seq<M31>
    decreases n - i,
{
    if i >= n {
        v
    } else {
        layer_s(layers_down(t, n, v, i + 1), i, layer_words(t, n, i as int), false)
    }
}

/// Whether packed twiddles are laid out for `2^n` values.
pub open spec fn laid_out(t: PackedTwiddles, n: nat) -> bool {
    &&& 1 <= n <= 31
    &&& t.layer_offsets@.len() == n
    &&& t.packed@.len() == pow2(n) - 1
    &&& forall|i: int|
        0 <= i < n ==> #[trigger] t.layer_offsets@[i] == layer_offset((n - 1) as nat, i)
}

proof fn lemma_up_len(t: PackedTwiddles, n: nat, v: Seq<M31>, i: nat)
    ensures
        layers_up(t, n, v, i).len() == v.len(),
    decreases i,
{
    if i > 0 {
        lemma_up_len(t, n, v, (i - 1) as nat);
    }
}

proof fn lemma_down_len(t: PackedTwiddles, n: nat, v: Seq<M31>, i: nat)
    ensures
        layers_down(t, n, v, i).len() == v.len(),
    decreases n - i,
{
    if i < n {
        lemma_down_len(t, n, v, i + 1);
    }
}

/// The twiddles of a layer lie within the packed ones.
proof fn lemma_layer_in_bounds(t: PackedTwiddles, n: nat, i: int)
    requires
        laid_out(t, n),
        0 <= i < n,
    ensures
        t.layer_offsets@[i] + pow2((n - 1 - i) as nat) <= t.packed@.len(),
{
    assert(t.layer_offsets@[i] == layer_offset((n - 1) as nat, i));
    lemma_pow2_double((n - i) as nat);
    lemma_pow2_pos((n - 1 - i) as nat);
}

/// A pass of the plan can be run, and its steps take the twiddles of their layers.
proof fn lemma_pass_ready(
    p: PassParams,
    pass: (u32, u32),
    inverse: bool,
    descending: bool,
    scale: u32,
    src_len: u32,
    t: PackedTwiddles,
    n: nat,
    src: int,
)
    requires
        laid_out(t, n),
        is_pass_params(p, pass, inverse, descending, scale, src_len, t.layer_offsets@),
        0 < pass.1 <= 13,
        pass.0 + pass.1 <= n,
        src_len <= src,
    ensures
        pass_fits(p, t.packed@, n, src),
        forall|j: int|
            0 <= j < pass.1 ==> #[trigger] step_twiddles(p, t.packed@, n, j) == layer_words(
                t,
                n,
                pass.0 + j,
            ),
{
    assert forall|j: int| 0 <= j < p.n_layers implies (#[trigger] p.twiddle_offsets@[j]) + pow2(
        (n - 1 - p.i0 - j) as nat,
    ) <= t.packed@.len() by {
        lemma_layer_in_bounds(t, n, pass.0 + j);
    }
    assert forall|j: int| 0 <= j < pass.1 implies #[trigger] step_twiddles(p, t.packed@, n, j)
        == layer_words(t, n, pass.0 + j) by {
        assert(p.twiddle_offsets@[j] == t.layer_offsets@[pass.0 + j]);
        assert(step_twiddles(p, t.packed@, n, j) =~= layer_words(t, n, pass.0 + j));
    }
}

/// The steps of an inverse pass go on with the layers.
proof fn lemma_steps_up(
    p: PassParams,
    pass: (u32, u32),
    t: PackedTwiddles,
    n: nat,
    v: Seq<M31>,
    s: nat,
)
    requires
        s <= pass.1,
        p.i0 == pass.0,
        p.n_layers == pass.1,
        p.inverse == 1,
        p.descending == 0,
        forall|j: int|
            0 <= j < pass.1 ==> #[trigger] step_twiddles(p, t.packed@, n, j) == layer_words(
                t,
                n,
                pass.0 + j,
            ),
    ensures
        after_steps(p, t.packed@, n, layers_up(t, n, v, pass.0 as nat), s) == layers_up(
            t,
            n,
            v,
            (pass.0 + s) as nat,
        ),
    decreases s,
{
    if s > 0 {
        lemma_steps_up(p, pass, t, n, v, (s - 1) as nat);
        assert(step_twiddles(p, t.packed@, n, s - 1) == layer_words(t, n, pass.0 + (s - 1)));
        assert(step_layer(p, s - 1) == s - 1);
    }
}

/// The steps of a forward pass go on with the layers.
proof fn lemma_steps_down(
    p: PassParams,
    pass: (u32, u32),
    t: PackedTwiddles,
    n: nat,
    v: Seq<M31>,
    s: nat,
)
    requires
        s <= pass.1,
        pass.0 + pass.1 <= n,
        p.i0 == pass.0,
        p.n_layers == pass.1,
        p.inverse == 0,
        p.descending == 1,
        forall|j: int|
            0 <= j < pass.1 ==> #[trigger] step_twiddles(p, t.packed@, n, j) == layer_words(
                t,
                n,
                pass.0 + j,
            ),
    ensures
        after_steps(p, t.packed@, n, layers_down(t, n, v, (pass.0 + pass.1) as nat), s)
            == layers_down(t, n, v, (pass.0 + pass.1 - s) as nat),
    decreases s,
{
    if s > 0 {
        lemma_steps_down(p, pass, t, n, v, (s - 1) as nat);
        let j = pass.1 - s;
        assert(step_twiddles(p, t.packed@, n, j) == layer_words(t, n, pass.0 + j));
        assert(step_layer(p, s - 1) == j);
    }
}

/// The factor of the last inverse pass.
pub open spec fn inverse_size(n: nat) -> M31 {
    inv_of(M31(pow2(n) as u32))
}

/// Runs all passes of an inverse transform.
pub fn run_ifft(values: Vec<M31>, t: &PackedTwiddles, n_log: u32) -> (r: Vec<M31>)
    requires
        laid_out(*t, n_log as nat),
        values@.len() == pow2(n_log as nat),
    ensures
        r@ == scale_all(layers_up(*t, n_log as nat, values@, n_log as nat), inverse_size(n_log as nat)),
{
    let ghost n = n_log as nat;
    let ghost v = values@;
    let plan = ifft_passes(n_log, &t.layer_offsets);
    let ghost passes = choose|passes: Seq<(u32, u32)>|
        #[trigger] is_pass_split(passes, n_log as int) && plan@.len() == passes.len() && forall|
            k: int,
        |
            0 <= k < plan@.len() ==> is_pass_params(
                (#[trigger] plan@[k]).0,
                passes[k],
                true,
                false,
                if k + 1 == passes.len() {
                    inv_of(M31(pow2(n_log as nat) as u32)).0
                } else {
                    1
                },
                0,
                t.layer_offsets@,
            ) && plan@[k].1 == pow2((n_log - passes[k].1 - plan@[k].0.c_log) as nat);
    let none: Vec<M31> = Vec::new();
    let mut values = values;
    let count: usize = plan.len();
    for k in 0..count
        invariant
            n == n_log,
            laid_out(*t, n),
            v.len() == pow2(n),
            values@.len() == pow2(n),
            none@.len() == 0,
            count == plan@.len(),
            count > 0,
            plan@.len() == passes.len(),
            is_pass_split(passes, n as int),
            forall|k: int|
                0 <= k < plan@.len() ==> is_pass_params(
                    (#[trigger] plan@[k]).0,
                    passes[k],
                    true,
                    false,
                    if k + 1 == passes.len() {
                        inv_of(M31(pow2(n_log as nat) as u32)).0
                    } else {
                        1
                    },
                    0,
                    t.layer_offsets@,
                ) && plan@[k].1 == pow2((n_log - passes[k].1 - plan@[k].0.c_log) as nat),
            k < count ==> values@ == layers_up(*t, n, v, passes[k as int].0 as nat),
            k == count ==> values@ == stored(plan@[count - 1].0, layers_up(*t, n, v, n)),
    {
        let p = plan[k].0;
        let groups: usize = plan[k].1;
        let ghost pass = passes[k as int];
        let ghost scale = if k + 1 == passes.len() {
            inv_of(M31(pow2(n_log as nat) as u32)).0
        } else {
            1
        };
        let ghost before = values@;
        proof {
            assert(plan@[k as int].0 == p);
            assert(0 <= passes[k as int].0 < n);
            lemma_pass_end(passes, n as int, k as int);
            lemma_pass_ready(p, pass, true, false, scale, 0, *t, n, 0);
            lemma_steps_up(p, pass, *t, n, v, pass.1 as nat);
            lemma_up_len(*t, n, v, (pass.0 + pass.1) as nat);
        }
        run_pass(&p, &t.packed, n_log, groups, &mut values, &none);
        assert(staged(p, before, none@) == before);
        assert(values@ == stored(p, layers_up(*t, n, v, (pass.0 + pass.1) as nat)));
    }
    proof {
        let w = layers_up(*t, n, v, n);
        let last = plan@[count - 1].0;
        let inv = inverse_size(n);
        lemma_up_len(*t, n, v, n);
        assert(last.scale == inv.0);
        assert(M31(last.scale) == inv);
        if last.scale == 1 {
            assert(inv == M31::one_el());
            assert forall|g: int| 0 <= g < w.len() implies w[g] == #[trigger] scale_all(w, inv)[g] by {
                M31::law_mul_one(w[g]);
                lemma_layer_canonical(
                    layers_up(*t, n, v, (n - 1) as nat),
                    (n - 1) as nat,
                    layer_words(*t, n, n - 1),
                    g,
                );
            }
        }
        assert(values@ =~= scale_all(w, inv));
    }
    values
}

/// Where a pass ends, the next one starts; the last one ends with the layers.
proof fn lemma_pass_end(passes: Seq<(u32, u32)>, n: int, k: int)
    requires
        is_pass_split(passes, n),
        0 <= k < passes.len(),
    ensures
        0 < passes[k].1 <= 13,
        passes[k].0 + passes[k].1 <= n,
        k + 1 < passes.len() ==> passes[k + 1].0 == passes[k].0 + passes[k].1,
        k + 1 == passes.len() ==> passes[k].0 + passes[k].1 == n,
{
    assert(0 <= passes[k].0 < n);
    if k + 1 < passes.len() {
        let next = k + 1;
        assert(passes[next].0 == passes[k].0 + passes[k].1);
    }
}

/// Runs all passes of a forward transform, from coefficients behind which zeros follow.
pub fn run_rfft(coeffs: &Vec<M31>, out: Vec<M31>, t: &PackedTwiddles, n_log: u32) -> (r: Vec<M31>)
    requires
        laid_out(*t, n_log as nat),
        0 < coeffs@.len() <= pow2(n_log as nat),
        out@.len() == pow2(n_log as nat),
    ensures
        r@ == layers_down(*t, n_log as nat, padded(coeffs@, pow2(n_log as nat)), 0),
{
    let ghost n = n_log as nat;
    let ghost v = padded(coeffs@, pow2(n));
    proof {
        lemma_pow2_bound(n);
    }
    let src_len: u32 = coeffs.len() as u32;
    let plan = rfft_passes(n_log, src_len, &t.layer_offsets);
    let ghost passes = choose|passes: Seq<(u32, u32)>|
        #[trigger] is_pass_split(passes, n_log as int) && plan@.len() == passes.len() && forall|
            k: int,
        |
            0 <= k < plan@.len() ==> is_pass_params(
                (#[trigger] plan@[k]).0,
                passes[passes.len() - 1 - k],
                false,
                true,
                1,
                if k == 0 {
                    src_len
                } else {
                    0
                },
                t.layer_offsets@,
            ) && plan@[k].1 == pow2(
                (n_log - passes[passes.len() - 1 - k].1 - plan@[k].0.c_log) as nat,
            );
    let mut values = out;
    let count: usize = plan.len();
    for k in 0..count
        invariant
            n == n_log,
            laid_out(*t, n),
            v == padded(coeffs@, pow2(n)),
            src_len == coeffs@.len(),
            0 < src_len <= pow2(n),
            values@.len() == pow2(n),
            count == plan@.len(),
            count > 0,
            plan@.len() == passes.len(),
            is_pass_split(passes, n as int),
            forall|k: int|
                0 <= k < plan@.len() ==> is_pass_params(
                    (#[trigger] plan@[k]).0,
                    passes[passes.len() - 1 - k],
                    false,
                    true,
                    1,
                    if k == 0 {
                        src_len
                    } else {
                        0
                    },
                    t.layer_offsets@,
                ) && plan@[k].1 == pow2(
                    (n_log - passes[passes.len() - 1 - k].1 - plan@[k].0.c_log) as nat,
                ),
            0 < k ==> values@ == layers_down(*t, n, v, passes[count - k].0 as nat),
    {
        let p = plan[k].0;
        let groups: usize = plan[k].1;
        let ghost pass = passes[count - 1 - k];
        let ghost from = if k == 0 {
            src_len
        } else {
            0
        };
        let ghost before = values@;
        let ghost top = layers_down(*t, n, v, (pass.0 + pass.1) as nat);
        proof {
            assert(plan@[k as int].0 == p);
            assert(0 <= passes[count - 1 - k].0 < n);
            lemma_pass_end(passes, n as int, count - 1 - k);
            lemma_pass_ready(p, pass, false, true, 1, from, *t, n, coeffs@.len() as int);
            lemma_steps_down(p, pass, *t, n, v, pass.1 as nat);
            lemma_down_len(*t, n, v, pass.0 as nat);
        }
        run_pass(&p, &t.packed, n_log, groups, &mut values, coeffs);
        proof {
            if k == 0 {
                assert(staged(p, before, coeffs@) =~= v);
                assert(top == v);
            } else {
                assert(staged(p, before, coeffs@) == before);
                assert(before == top);
            }
            assert(values@ == layers_down(*t, n, v, pass.0 as nat));
        }
    }
    values
}

/// The first line layer of a domain in a tower.
pub open spec fn first_line(domain: CircleDomain, buffer: Seq<M31>) -> Seq<M31> {
    let l = domain.half_coset.log_size as nat;
    buffer.subrange(buffer.len() - pow2(l), buffer.len() - pow2((l - 1) as nat))
}

/// Line layer `i` of a domain in a tower.
pub open spec fn line_layer(domain: CircleDomain, buffer: Seq<M31>, i: int) -> Seq<M31> {
    let l = domain.half_coset.log_size;
    buffer.subrange(buffer.len() - pow2((l - i + 1) as nat), buffer.len() - pow2((l - i) as nat))
}

/// The circle layer derived from the first line layer.
pub open spec fn circle_layer(domain: CircleDomain, buffer: Seq<M31>) -> Seq<M31> {
    Seq::new(
        pow2(domain.half_coset.log_size as nat),
        |q: int| circle_twiddle(first_line(domain, buffer), q),
    )
}

/// Packed twiddles hold the circle layer, and behind it the line layers.
pub proof fn lemma_packed_layers(t: PackedTwiddles, domain: CircleDomain, buffer: Seq<M31>)
    requires
        domain.wf(),
        t.packs(domain, buffer),
        domain.half_coset.log_size >= 2,
        pow2(domain.half_coset.log_size as nat) <= buffer.len(),
    ensures
        laid_out(t, domain.log_size_s()),
        layer_words(t, domain.log_size_s(), 0) == circle_layer(domain, buffer),
        forall|i: int|
            1 <= i <= domain.half_coset.log_size ==> #[trigger] layer_words(
                t,
                domain.log_size_s(),
                i,
            ) == line_layer(domain, buffer, i),
{
    let l = domain.half_coset.log_size as nat;
    let n = domain.log_size_s();
    lemma_pow2_double((l + 1) as nat);
    lemma_pow2_pos(l);
    assert(t.layer_offsets@[0] == layer_offset(l, 0));
    assert(layer_words(t, n, 0) =~= circle_layer(domain, buffer));
    assert forall|i: int| 1 <= i <= l implies #[trigger] layer_words(t, n, i) == line_layer(
        domain,
        buffer,
        i,
    ) by {
        let k = (l - i) as nat;
        lemma_pow2_double((k + 1) as nat);
        lemma_pow2_pos(k);
        lemma_pow2_le((k + 1) as nat, l);
        assert(t.layer_offsets@[i] == layer_offset(l, i));
        assert forall|h: int| 0 <= h < pow2(k) implies layer_words(t, n, i)[h]
            == #[trigger] line_layer(domain, buffer, i)[h] by {
            let q = layer_offset(l, i) + h;
            assert(t.packed@[q] == buffer[buffer.len() - pow2(l) + (q - pow2(l))].0);
        }
        assert(layer_words(t, n, i) =~= line_layer(domain, buffer, i));
    }
}

/// The layers of the tower of a tree fit the domain.
proof fn lemma_tree_layers(tree: TwiddleTree, domain: CircleDomain)
    requires
        tree.wf(),
        domain.wf(),
        domain.half_coset.doubling_of_s(tree.root_coset),
        domain.half_coset.log_size >= 2,
    ensures
        pow2(domain.half_coset.log_size as nat) <= tree.twiddles@.len(),
        layer_fits(domain, 0, circle_layer(domain, tree.twiddles@)),
        forall|i: int|
            1 <= i <= domain.half_coset.log_size ==> layer_fits(
                domain,
                i as nat,
                #[trigger] line_layer(domain, tree.twiddles@, i),
            ),
{
    let l = domain.half_coset.log_size as nat;
    lemma_pow2_le(l, tree.root_coset.log_size as nat);
    lemma_pow2_double(l);
    let first = first_line(domain, tree.twiddles@);
    lemma_circle_layer_fits(
        tree.twiddles@,
        tree.root_coset,
        domain,
        first,
        circle_layer(domain, tree.twiddles@),
    );
    assert forall|i: int| 1 <= i <= l implies layer_fits(
        domain,
        i as nat,
        #[trigger] line_layer(domain, tree.twiddles@, i),
    ) by {
        lemma_line_layer_fits(
            tree.twiddles@,
            tree.root_coset,
            domain,
            i as nat,
            line_layer(domain, tree.twiddles@, i),
        );
    }
}

/// The layers of the two towers of a tree are inverses of each other.
proof fn lemma_tree_inverses(tree: TwiddleTree, domain: CircleDomain)
    requires
        tree.wf(),
        domain.wf(),
        domain.half_coset.doubling_of_s(tree.root_coset),
        domain.half_coset.log_size >= 2,
    ensures
        inverse_twiddles(
            circle_layer(domain, tree.twiddles@),
            circle_layer(domain, tree.itwiddles@),
        ),
        forall|i: int|
            1 <= i <= domain.half_coset.log_size ==> inverse_twiddles(
                line_layer(domain, tree.twiddles@, i),
                #[trigger] line_layer(domain, tree.itwiddles@, i),
            ),
{
    let l = domain.half_coset.log_size as nat;
    lemma_pow2_le(l, tree.root_coset.log_size as nat);
    lemma_pow2_double(l);
    lemma_pow2_double((l - 1) as nat);
    let (first, ifirst) = (first_line(domain, tree.twiddles@), first_line(domain, tree.itwiddles@));
    let off = tree.twiddles@.len() - pow2(l);
    let (tw, itw) = (circle_layer(domain, tree.twiddles@), circle_layer(domain, tree.itwiddles@));
    assert forall|q: int| 0 <= q < tw.len() implies tw[q].times(#[trigger] itw[q])
        == M31::one_el() by {
        let a = q / 4;
        assert(tree.twiddles@[off + 2 * a].times(tree.itwiddles@[off + 2 * a]) == M31::one_el());
        assert(tree.twiddles@[off + 2 * a + 1].times(tree.itwiddles@[off + 2 * a + 1])
            == M31::one_el());
        assert(first[2 * a].times(ifirst[2 * a]) == M31::one_el());
        assert(first[2 * a + 1].times(ifirst[2 * a + 1]) == M31::one_el());
        lemma_opposite_product(first[2 * a], ifirst[2 * a]);
        lemma_opposite_product(first[2 * a + 1], ifirst[2 * a + 1]);
    }
    assert forall|i: int| 1 <= i <= l implies inverse_twiddles(
        line_layer(domain, tree.twiddles@, i),
        #[trigger] line_layer(domain, tree.itwiddles@, i),
    ) by {
        let (u, iu) = (
            line_layer(domain, tree.twiddles@, i),
            line_layer(domain, tree.itwiddles@, i),
        );
        lemma_pow2_double((l - i + 1) as nat);
        lemma_pow2_le((l - i + 1) as nat, tree.root_coset.log_size as nat);
        let at = tree.twiddles@.len() - pow2((l - i + 1) as nat);
        assert forall|q: int| 0 <= q < u.len() implies u[q].times(#[trigger] iu[q])
            == M31::one_el() by {
            assert(tree.twiddles@[at + q].times(tree.itwiddles@[at + q]) == M31::one_el());
        }
    }
}

/// What the inverse layers below `i` have made of the values.
proof fn lemma_up_unfolded(
    tree: TwiddleTree,
    domain: CircleDomain,
    t: PackedTwiddles,
    v: Seq<M31>,
    i: nat,
)
    requires
        tree.wf(),
        domain.wf(),
        domain.half_coset.doubling_of_s(tree.root_coset),
        domain.half_coset.log_size >= 2,
        t.packs(domain, tree.itwiddles@),
        v.len() == domain.size_s(),
        i <= domain.log_size_s(),
    ensures
        unfolded(domain, v, layers_up(t, domain.log_size_s(), v, i), i),
    decreases i,
{
    let n = domain.log_size_s();
    if i == 0 {
        lemma_unfolded_start(domain, v);
    } else {
        let k = (i - 1) as nat;
        lemma_up_unfolded(tree, domain, t, v, k);
        lemma_up_len(t, n, v, k);
        lemma_tree_layers(tree, domain);
        lemma_tree_inverses(tree, domain);
        lemma_packed_layers(t, domain, tree.itwiddles@);
        let words = layer_words(t, n, k as int);
        if k == 0 {
            lemma_unfolded_step(
                domain,
                v,
                layers_up(t, n, v, k),
                k,
                circle_layer(domain, tree.twiddles@),
                words,
            );
        } else {
            assert(words == line_layer(domain, tree.itwiddles@, k as int));
            lemma_unfolded_step(
                domain,
                v,
                layers_up(t, n, v, k),
                k,
                line_layer(domain, tree.twiddles@, k as int),
                words,
            );
        }
    }
}

/// The inverse layers, lowest first, followed by the division by the size, give the coefficients
/// of the polynomial that takes the values on the domain.
pub proof fn lemma_inverse_transform(
    tree: TwiddleTree,
    domain: CircleDomain,
    t: PackedTwiddles,
    v: Seq<M31>,
)
    requires
        tree.wf(),
        domain.wf(),
        domain.half_coset.doubling_of_s(tree.root_coset),
        domain.half_coset.log_size >= 2,
        t.packs(domain, tree.itwiddles@),
        v.len() == domain.size_s(),
    ensures
        ({
            let n = domain.log_size_s();
            let c = scale_all(layers_up(t, n, v, n), inverse_size(n));
            &&& c.len() == v.len()
            &&& forall|k: int| 0 <= k < c.len() ==> (#[trigger] c[k]).canon() == c[k]
            &&& forall|j: int|
                0 <= j < v.len() ==> poly_at(
                    c,
                    n,
                    domain.reversed_at(j).x,
                    domain.reversed_at(j).y,
                ) == #[trigger] v[j].canon()
        }),
{
    let n = domain.log_size_s();
    let w = layers_up(t, n, v, n);
    let inv = inverse_size(n);
    let c = scale_all(w, inv);
    let size = M31(pow2(n) as u32);
    lemma_up_len(t, n, v, n);
    lemma_up_unfolded(tree, domain, t, v, n);
    lemma_two_pow_nonzero(n);
    lemma_two_pow_value(n);
    lemma_pow2_bound(n);
    assert(size.canon() == m31(pow2(n) as int));
    lemma_inv_exists(size);
    M31::law_canon_args(size, inv);
    assert(two_pow(n).times(inv) == M31::one_el());
    assert forall|j: int| 0 <= j < v.len() implies poly_at(
        c,
        n,
        domain.reversed_at(j).x,
        domain.reversed_at(j).y,
    ) == #[trigger] v[j].canon() by {
        assert(scaled_place(j, inv));
        lemma_start(c, n);
        assert(block_of(c, n, j) == c);
        M31::law_mul_one(v[j]);
    }
    assert forall|k: int| 0 <= k < c.len() implies (#[trigger] c[k]).canon() == c[k] by {
        M31::law_canon_results(w[k], inv);
    }
}

/// What the layers from `i` on have made of the coefficients.
proof fn lemma_down_folded(
    tree: TwiddleTree,
    domain: CircleDomain,
    t: PackedTwiddles,
    c: Seq<M31>,
    i: nat,
    j: int,
)
    requires
        tree.wf(),
        domain.wf(),
        domain.half_coset.doubling_of_s(tree.root_coset),
        domain.half_coset.log_size >= 2,
        t.packs(domain, tree.twiddles@),
        c.len() == domain.size_s(),
        i <= domain.log_size_s(),
        0 <= j < c.len(),
    ensures
        folded_at(layers_down(t, domain.log_size_s(), c, i), i, j, domain.reversed_at(j))
            == poly_at(c, domain.log_size_s(), domain.reversed_at(j).x, domain.reversed_at(j).y),
    decreases domain.log_size_s() - i,
{
    let n = domain.log_size_s();
    if i == n {
        lemma_start(c, n);
        assert(block_of(c, n, j) == c);
    } else {
        lemma_down_folded(tree, domain, t, c, i + 1, j);
        lemma_down_len(t, n, c, i + 1);
        lemma_tree_layers(tree, domain);
        lemma_packed_layers(t, domain, tree.twiddles@);
        let words = layer_words(t, n, i as int);
        if i > 0 {
            assert(words == line_layer(domain, tree.twiddles@, i as int));
        }
        assert(layer_fits(domain, i, words));
        assert(place(j));
        lemma_butterfly_step(
            layers_down(t, n, c, i + 1),
            n,
            i,
            words,
            j,
            domain.reversed_at(j),
        );
    }
}

/// The layers, highest first, give the values on the domain of the polynomial with the given
/// coefficients.
pub proof fn lemma_forward_transform(
    tree: TwiddleTree,
    domain: CircleDomain,
    t: PackedTwiddles,
    c: Seq<M31>,
    k: nat,
)
    requires
        tree.wf(),
        domain.wf(),
        domain.half_coset.doubling_of_s(tree.root_coset),
        domain.half_coset.log_size >= 2,
        t.packs(domain, tree.twiddles@),
        c.len() == pow2(k),
        k <= domain.log_size_s(),
    ensures
        ({
            let n = domain.log_size_s();
            let v = layers_down(t, n, padded(c, pow2(n)), 0);
            &&& v.len() == pow2(n)
            &&& forall|j: int|
                0 <= j < v.len() ==> #[trigger] v[j] == poly_at(
                    c,
                    k,
                    domain.reversed_at(j).x,
                    domain.reversed_at(j).y,
                ).canon()
        }),
{
    let n = domain.log_size_s();
    let full = padded(c, pow2(n));
    let v = layers_down(t, n, full, 0);
    lemma_down_len(t, n, full, 0);
    lemma2_to64();
    assert forall|j: int| 0 <= j < v.len() implies #[trigger] v[j] == poly_at(
        c,
        k,
        domain.reversed_at(j).x,
        domain.reversed_at(j).y,
    ).canon() by {
        let p = domain.reversed_at(j);
        lemma_down_folded(tree, domain, t, full, 0, j);
        assert(j / 1 == j);
        assert(folded_at(v, 0, j, p) == v[j]);
        lemma_poly_at_padded(c, k, n, p.x, p.y);
        lemma_down_len(t, n, full, 1);
        lemma_layer_canonical(layers_down(t, n, full, 1), 0, layer_words(t, n, 0), j);
    }
}

} // verus!
