//! Transforms in device passes. A pass stages tiles in fast memory and applies several layers to
//! each; it views the values as `[hi | r | mid | c]`, with the layers along `r`.

use vstd::arithmetic::div_mod::{
    lemma_div_denominator, lemma_fundamental_div_mod, lemma_fundamental_div_mod_converse,
    lemma_mod_bound,
};
use vstd::arithmetic::power2::{lemma2_to64, lemma_pow2_adds, lemma_pow2_pos, pow2};
use vstd::prelude::*;

use super::transform::{
    lemma_forward_transform, lemma_inverse_transform, lemma_packed_layers, run_ifft, run_rfft,
};
use crate::fields::m31::M31;
use crate::fields::{inv_of, lemma_inv_of, Field};
use crate::poly::circle_poly::{
    is_pow2_len, CircleCoefficients, CircleEvaluation, EvalsOrCoeffs, Poly,
};
use crate::poly::domain::{canonic_domain, CanonicCoset, CircleDomain};
use crate::poly::extension::{column_log_size, committed, evaluates, interpolates};
use crate::poly::twiddles::{
    circle_twiddle, circle_twiddles_from_line_twiddles, domain_line_twiddles_from_tree, TwiddleTree,
};
use crate::utils::{lemma_pow2_bound, lemma_pow2_double, lemma_pow2_le, pow2_usize};

verus! {

/// The logarithm of the tile that a pass stages.
pub const TILE_LOG: u32 = 13;

/// The least contiguous run of a strided pass.
pub const MIN_C_LOG: u32 = 5;

pub const THREADS_PER_GROUP: u64 = 1024;

/// The least logarithmic size of a transform in passes.
pub const MIN_METAL_FFT_LOG_SIZE: u32 = 14;

/// How many layers a pass takes at most that starts at layer `i0`.
pub open spec fn pass_cap(i0: int) -> int {
    if i0 == 0 {
        13
    } else if i0 < 8 {
        i0
    } else {
        8
    }
}

/// How many layers the pass at layer `i0` of `n` takes.
pub open spec fn pass_layers(n: int, i0: int) -> int {
    if n - i0 < pass_cap(i0) {
        n - i0
    } else {
        pass_cap(i0)
    }
}

/// The passes over `n` layers: each starts where the one before it ends, and takes as many layers
/// as it can.
pub open spec fn is_pass_split(passes: Seq<(u32, u32)>, n: int) -> bool {
    &&& passes.len() == 0 ==> n <= 0
    &&& passes.len() > 0 ==> passes[0].0 == 0 && passes.last().0 + passes.last().1 == n
    &&& forall|k: int|
        0 <= k < passes.len() ==> 0 <= (#[trigger] passes[k]).0 < n && passes[k].1 == pass_layers(
            n,
            passes[k].0 as int,
        )
    &&& forall|j: int, k: int|
        0 <= j && k == j + 1 && k < passes.len() ==> (#[trigger] passes[k]).0 == (
        #[trigger] passes[j]).0 + passes[j].1
}

/// Splits the layers of a transform into passes.
pub fn pass_split(n_log: u32) -> (r: Vec<(u32, u32)>)
    ensures
        is_pass_split(r@, n_log as int),
{
    let mut passes: Vec<(u32, u32)> = Vec::new();
    let mut i0: u32 = 0;
    while i0 < n_log
        invariant
            i0 <= n_log,
            passes@.len() == 0 ==> i0 == 0,
            passes@.len() > 0 ==> passes@[0].0 == 0 && passes@.last().0 + passes@.last().1 == i0
                && i0 > 0,
            forall|k: int|
                0 <= k < passes@.len() ==> 0 <= (#[trigger] passes@[k]).0 < n_log && passes@[k].1
                    == pass_layers(n_log as int, passes@[k].0 as int),
            forall|j: int, k: int|
                0 <= j && k == j + 1 && k < passes@.len() ==> (#[trigger] passes@[k]).0 == (
                #[trigger] passes@[j]).0 + passes@[j].1,
        decreases n_log - i0,
    {
        let cap: u32 = if i0 == 0 {
            TILE_LOG
        } else if i0 < TILE_LOG - MIN_C_LOG {
            i0
        } else {
            TILE_LOG - MIN_C_LOG
        };
        let n_layers: u32 = if n_log - i0 < cap {
            n_log - i0
        } else {
            cap
        };
        passes.push((i0, n_layers));
        i0 = i0 + n_layers;
    }
    passes
}

/// The parameters of a pass.
#[derive(Clone, Copy, Debug, PartialEq, Eq)]
pub struct PassParams {
    /// The pass's first layer.
    pub i0: u32,
    pub n_layers: u32,
    /// The contiguous low bits kept inside the tile.
    pub c_log: u32,
    pub inverse: u32,
    /// Whether the layers are applied from the highest down.
    pub descending: u32,
    /// A factor on what the pass stores.
    pub scale: u32,
    /// The length of the source to stage from, zero-extended, or none.
    pub src_len: u32,
    /// Where the twiddles of each layer of the pass start.
    pub twiddle_offsets: [u32; 16],
}

/// The contiguous bits of a pass.
pub open spec fn pass_c_log(i0: int, n_layers: int) -> int {
    if 13 - n_layers < i0 {
        13 - n_layers
    } else {
        i0
    }
}

pub open spec fn is_pass_params(
    p: PassParams,
    pass: (u32, u32),
    inverse: bool,
    descending: bool,
    scale: u32,
    src_len: u32,
    layer_offsets: Seq<u32>,
) -> bool {
    &&& p.i0 == pass.0
    &&& p.n_layers == pass.1
    &&& p.c_log == pass_c_log(pass.0 as int, pass.1 as int)
    &&& p.inverse == if inverse {
        1u32
    } else {
        0
    }
    &&& p.descending == if descending {
        1u32
    } else {
        0
    }
    &&& p.scale == scale
    &&& p.src_len == src_len
    &&& forall|j: int|
        0 <= j < 16 ==> #[trigger] p.twiddle_offsets@[j] == if j < pass.1 {
            layer_offsets[pass.0 + j]
        } else {
            0
        }
}

/// The parameters of a pass over `2^n_log` values, and how many tiles it takes.
pub fn pass_params(
    n_log: u32,
    pass: (u32, u32),
    inverse: bool,
    descending: bool,
    scale: u32,
    src_len: u32,
    layer_offsets: &Vec<u32>,
) -> (r: (PassParams, usize))
    requires
        n_log <= 31,
        0 < pass.1 <= 13,
        pass.0 + pass.1 <= n_log,
        layer_offsets@.len() == n_log,
    ensures
        is_pass_params(r.0, pass, inverse, descending, scale, src_len, layer_offsets@),
        r.1 == pow2((n_log - pass.1 - r.0.c_log) as nat),
{
    let (i0, n_layers) = pass;
    let c_log: u32 = if TILE_LOG - n_layers < i0 {
        TILE_LOG - n_layers
    } else {
        i0
    };
    let mut offsets: [u32; 16] = [0; 16];
    let mut j: u32 = 0;
    while j < n_layers
        invariant
            j <= n_layers <= 13,
            i0 + n_layers <= n_log,
            layer_offsets@.len() == n_log,
            forall|k: int| 0 <= k < j ==> #[trigger] offsets@[k] == layer_offsets@[i0 + k],
            forall|k: int| j <= k < 16 ==> #[trigger] offsets@[k] == 0,
        decreases n_layers - j,
    {
        offsets[j as usize] = layer_offsets[(i0 + j) as usize];
        j += 1;
    }
    let params = PassParams {
        i0,
        n_layers,
        c_log,
        inverse: if inverse {
            1
        } else {
            0
        },
        descending: if descending {
            1
        } else {
            0
        },
        scale,
        src_len,
        twiddle_offsets: offsets,
    };
    (params, pow2_usize(n_log - n_layers - c_log))
}

/// Where tile `gid` of a pass starts.
pub open spec fn tile_base(i0: nat, a: nat, c_log: nat, gid: int) -> int {
    let mid = pow2((i0 - c_log) as nat) as int;
    (gid / mid) * pow2(i0 + a) + (gid % mid) * pow2(c_log)
}

/// The place of element `[r | c]` of a tile.
pub open spec fn tile_place(i0: nat, a: nat, c_log: nat, gid: int, r: int, c: int) -> int {
    tile_base(i0, a, c_log, gid) + r * pow2(i0) + c
}

/// The tile, row and run position of a place.
pub open spec fn place_tile(i0: nat, a: nat, c_log: nat, g: int) -> int {
    (g / pow2(i0 + a) as int) * pow2((i0 - c_log) as nat) + (g % pow2(i0) as int) / pow2(
        c_log,
    ) as int
}

pub open spec fn place_row(i0: nat, a: nat, g: int) -> int {
    (g / pow2(i0) as int) % pow2(a) as int
}

/// Every place lies in one tile: the tiles of a pass cover the values.
pub proof fn lemma_tiles_cover(i0: nat, a: nat, c_log: nat, g: int)
    requires
        c_log <= i0,
        g >= 0,
    ensures
        tile_place(
            i0,
            a,
            c_log,
            place_tile(i0, a, c_log, g),
            place_row(i0, a, g),
            g % pow2(c_log) as int,
        ) == g,
        0 <= place_row(i0, a, g) < pow2(a),
{
    let m = (i0 - c_log) as nat;
    lemma_pow2_pos(i0);
    lemma_pow2_pos(a);
    lemma_pow2_pos(m);
    lemma_pow2_pos(c_log);
    lemma_pow2_adds(i0, a);
    lemma_pow2_adds(c_log, m);
    let (pi, pa, pm, pc) = (pow2(i0) as int, pow2(a) as int, pow2(m) as int, pow2(c_log) as int);
    let low = g % pi;
    let up = g / pi;
    let hi = g / (pi * pa);
    lemma_fundamental_div_mod(g, pi);
    lemma_fundamental_div_mod(up, pa);
    lemma_div_denominator(g, pi, pa);
    lemma_mod_bound(g, pi);
    lemma_mod_bound(up, pa);
    assert(up / pa == hi);
    let q = low / pc;
    lemma_fundamental_div_mod(low, pc);
    lemma_mod_bound(low, pc);
    assert(0 <= q < pm) by (nonlinear_arith)
        requires
            0 <= low < pc * pm,
            low == pc * q + low % pc,
            0 <= low % pc < pc,
            pc > 0,
            pm > 0,
    ;
    assert(low % pc == g % pc) by {
        vstd::arithmetic::div_mod::lemma_mod_mod(g, pc, pm);
    }
    let gid = hi * pm + q;
    lemma_fundamental_div_mod_converse(gid, pm, hi, q);
    assert(gid / pm == hi && gid % pm == q);
    let r = up % pa;
    assert(hi * (pi * pa) + q * pc + r * pi + low % pc == g) by (nonlinear_arith)
        requires
            g == pi * up + low,
            up == pa * hi + r,
            low == pc * q + low % pc,
    ;
}

/// The twiddles of all layers one after the other, and where each layer starts.
pub struct PackedTwiddles {
    pub packed: Vec<u32>,
    pub layer_offsets: Vec<u32>,
}

/// Where the twiddles of layer `i` start, for a half coset of size `2^l`.
pub open spec fn layer_offset(l: nat, i: int) -> int {
    pow2(l + 1) - pow2((l + 1 - i) as nat)
}

impl PackedTwiddles {
    /// The circle layer first, then the line layers of the tree, largest first.
    pub open spec fn packs(self, domain: CircleDomain, buffer: Seq<M31>) -> bool {
        let l = domain.half_coset.log_size as nat;
        &&& self.layer_offsets@.len() == l + 1
        &&& forall|i: int|
            0 <= i <= l ==> #[trigger] self.layer_offsets@[i] == layer_offset(l, i)
        &&& self.packed@.len() == pow2(l + 1) - 1
        &&& forall|q: int|
            0 <= q < pow2(l) ==> #[trigger] self.packed@[q] == circle_twiddle(
                buffer.subrange(
                    buffer.len() - pow2(l),
                    buffer.len() - pow2((l - 1) as nat),
                ),
                q,
            ).0
        &&& forall|q: int|
            pow2(l) <= q < pow2(l + 1) - 1 ==> #[trigger] self.packed@[q] == buffer[buffer.len()
                - pow2(l) + (q - pow2(l))].0
    }
}

/// Packs the twiddles of a domain.
pub fn pack_twiddles(domain: CircleDomain, tree_buffer: &Vec<M31>) -> (r: PackedTwiddles)
    requires
        domain.wf(),
        2 <= domain.half_coset.log_size <= 30,
        domain.half_coset.size_s() <= tree_buffer.len(),
    ensures
        r.packs(domain, tree_buffer@),
{
    let l = domain.half_coset.log_size;
    let ghost ln = l as nat;
    let layers = domain_line_twiddles_from_tree(domain, tree_buffer);
    proof {
        lemma_pow2_double(ln);
        lemma_pow2_double((ln - 1) as nat);
        lemma_pow2_double(ln + 1);
        lemma_pow2_bound((ln - 1) as nat);
        lemma_pow2_bound(ln + 1);
        lemma2_to64();
        lemma_pow2_le((ln - 1) as nat, 30);
    }
    let circle = circle_twiddles_from_line_twiddles(layers[0]);
    let mut packed: Vec<u32> = Vec::new();
    let mut layer_offsets: Vec<u32> = Vec::new();
    layer_offsets.push(0);
    let n_circle = circle.len();
    let mut q: usize = 0;
    while q < n_circle
        invariant
            q <= n_circle == circle@.len(),
            packed@.len() == q,
            forall|j: int| 0 <= j < q ==> #[trigger] packed@[j] == circle@[j].0,
        decreases n_circle - q,
    {
        packed.push(circle[q].0);
        q += 1;
    }
    let ghost base = tree_buffer@.len() - pow2(ln);
    let mut k: u32 = 0;
    assert(layer_offset(ln, 0) == 0);
    assert(layer_offset(ln, 1) == pow2(ln));
    while k < l
        invariant
            k <= l <= 30,
            ln == l,
            ln >= 2,
            layers@.len() == l,
            pow2(ln) <= tree_buffer@.len(),
            pow2(ln + 1) <= 0x8000_0000,
            base == tree_buffer@.len() - pow2(ln),
            forall|k: int|
                0 <= k < layers@.len() ==> (#[trigger] layers@[k])@ == tree_buffer@.subrange(
                    tree_buffer@.len() - pow2((l - k) as nat),
                    tree_buffer@.len() - pow2((l - 1 - k) as nat),
                ),
            circle@.len() == pow2(ln),
            layer_offsets@.len() == k + 1,
            forall|i: int|
                0 <= i <= k ==> #[trigger] layer_offsets@[i] == layer_offset(ln, i),
            packed@.len() == layer_offset(ln, k + 1),
            forall|j: int| 0 <= j < pow2(ln) ==> #[trigger] packed@[j] == circle@[j].0,
            forall|j: int|
                pow2(ln) <= j < packed@.len() ==> #[trigger] packed@[j] == tree_buffer@[base + (j
                    - pow2(ln))].0,
        decreases l - k,
    {
        proof {
            lemma_pow2_le((l - k) as nat, ln);
            lemma_pow2_double((l - k) as nat);
            lemma_pow2_double(ln + 1);
            lemma_pow2_pos((l - k - 1) as nat);
        }
        layer_offsets.push(packed.len() as u32);
        let layer = layers[k as usize];
        let n_layer = layer.len();
        let ghost start = packed@.len();
        assert(start == pow2(ln + 1) - pow2((ln - k) as nat));
        let mut h: usize = 0;
        while h < n_layer
            invariant
                h <= n_layer == layer@.len(),
                n_layer == pow2((l - k) as nat) - pow2((l - 1 - k) as nat),
                k < l,
                ln == l,
                pow2((l - k) as nat) <= pow2(ln) <= tree_buffer@.len(),
                pow2(ln + 1) == 2 * pow2(ln),
                base == tree_buffer@.len() - pow2(ln),
                start == pow2(ln + 1) - pow2((ln - k) as nat),
                layer@ == tree_buffer@.subrange(
                    tree_buffer@.len() - pow2((l - k) as nat),
                    tree_buffer@.len() - pow2((l - 1 - k) as nat),
                ),
                packed@.len() == start + h,
                forall|j: int| 0 <= j < pow2(ln) ==> #[trigger] packed@[j] == circle@[j].0,
                forall|j: int|
                    pow2(ln) <= j < packed@.len() ==> #[trigger] packed@[j] == tree_buffer@[base
                        + (j - pow2(ln))].0,
            decreases n_layer - h,
        {
            packed.push(layer[h].0);
            h += 1;
        }
        assert(layer_offset(ln, k + 2) == pow2(ln + 1) - pow2((l - k - 1) as nat));
        k += 1;
    }
    PackedTwiddles { packed, layer_offsets }
}

/// The passes of an inverse transform: ascending, with the inverse of the size as the factor of
/// the last one.
pub fn ifft_passes(n_log: u32, layer_offsets: &Vec<u32>) -> (r: Vec<(PassParams, usize)>)
    requires
        1 <= n_log <= 31,
        layer_offsets@.len() == n_log,
    ensures
        exists|passes: Seq<(u32, u32)>|
            #[trigger] is_pass_split(passes, n_log as int) && r@.len() == passes.len() && forall|
                k: int,
            |
                0 <= k < r@.len() ==> is_pass_params(
                    (#[trigger] r@[k]).0,
                    passes[k],
                    true,
                    false,
                    if k + 1 == passes.len() {
                        inv_of(M31(pow2(n_log as nat) as u32)).0
                    } else {
                        1
                    },
                    0,
                    layer_offsets@,
                ) && r@[k].1 == pow2((n_log - passes[k].1 - r@[k].0.c_log) as nat),
{
    let passes = pass_split(n_log);
    let n = passes.len();
    proof {
        crate::poly::ifft::lemma_two_pow_nonzero(n_log as nat);
        lemma_pow2_bound(n_log as nat);
    }
    let size = M31::from_u32_unchecked(pow2_usize(n_log) as u32);
    let n_inv = size.inverse();
    proof {
        lemma_inv_of(size, n_inv);
    }
    let mut r: Vec<(PassParams, usize)> = Vec::new();
    let mut k: usize = 0;
    while k < n
        invariant
            k <= n == passes@.len(),
            1 <= n_log <= 31,
            layer_offsets@.len() == n_log,
            is_pass_split(passes@, n_log as int),
            n_inv == inv_of(M31(pow2(n_log as nat) as u32)),
            r@.len() == k,
            forall|j: int|
                0 <= j < k ==> is_pass_params(
                    (#[trigger] r@[j]).0,
                    passes@[j],
                    true,
                    false,
                    if j + 1 == passes@.len() {
                        inv_of(M31(pow2(n_log as nat) as u32)).0
                    } else {
                        1
                    },
                    0,
                    layer_offsets@,
                ) && r@[j].1 == pow2((n_log - passes@[j].1 - r@[j].0.c_log) as nat),
        decreases n - k,
    {
        assert(passes@[k as int].1 == pass_layers(n_log as int, passes@[k as int].0 as int));
        let scale = if k + 1 == n {
            n_inv.0
        } else {
            1
        };
        r.push(pass_params(n_log, passes[k], true, false, scale, 0, layer_offsets));
        k += 1;
    }
    r
}

/// The passes of a forward transform: from the highest layers down, the first of them from the
/// coefficients, zero-extended.
pub fn rfft_passes(n_log: u32, src_len: u32, layer_offsets: &Vec<u32>) -> (r: Vec<
    (PassParams, usize),
>)
    requires
        1 <= n_log <= 31,
        layer_offsets@.len() == n_log,
    ensures
        exists|passes: Seq<(u32, u32)>|
            #[trigger] is_pass_split(passes, n_log as int) && r@.len() == passes.len() && forall|
                k: int,
            |
                0 <= k < r@.len() ==> is_pass_params(
                    (#[trigger] r@[k]).0,
                    passes[passes.len() - 1 - k],
                    false,
                    true,
                    1,
                    if k == 0 {
                        src_len
                    } else {
                        0
                    },
                    layer_offsets@,
                ) && r@[k].1 == pow2(
                    (n_log - passes[passes.len() - 1 - k].1 - r@[k].0.c_log) as nat,
                ),
{
    let passes = pass_split(n_log);
    let n = passes.len();
    let mut r: Vec<(PassParams, usize)> = Vec::new();
    let mut k: usize = 0;
    while k < n
        invariant
            k <= n == passes@.len(),
            1 <= n_log <= 31,
            layer_offsets@.len() == n_log,
            is_pass_split(passes@, n_log as int),
            r@.len() == k,
            forall|j: int|
                0 <= j < k ==> is_pass_params(
                    (#[trigger] r@[j]).0,
                    passes@[passes@.len() - 1 - j],
                    false,
                    true,
                    1,
                    if j == 0 {
                        src_len
                    } else {
                        0
                    },
                    layer_offsets@,
                ) && r@[j].1 == pow2(
                    (n_log - passes@[passes@.len() - 1 - j].1 - r@[j].0.c_log) as nat,
                ),
        decreases n - k,
    {
        let pass = passes[n - 1 - k];
        assert(passes@[n - 1 - k].1 == pass_layers(n_log as int, passes@[n - 1 - k].0 as int));
        let src = if k == 0 {
            src_len
        } else {
            0
        };
        r.push(pass_params(n_log, pass, false, true, 1, src, layer_offsets));
        k += 1;
    }
    r
}

/// The coefficients of a large evaluation; a small one goes back.
pub fn ifft_metal(eval: CircleEvaluation, twiddles: &TwiddleTree) -> (r: Result<
    CircleCoefficients,
    CircleEvaluation,
>)
    requires
        twiddles.wf(),
        eval.wf(),
        eval.domain.half_coset.doubling_of_s(twiddles.root_coset),
    ensures
        r is Err <==> eval.domain.log_size_s() < 14,
        match r {
            Err(same) => same == eval,
            Ok(coeffs) => coeffs.wf() && coeffs.log_size == eval.domain.log_size_s()
                && interpolates(eval, coeffs.coeffs@),
        },
{
    if eval.domain.log_size() < MIN_METAL_FFT_LOG_SIZE {
        return Err(eval);
    }
    Ok(interpolate_in_passes(eval, twiddles))
}

/// The coefficients of an evaluation, pass after pass.
fn interpolate_in_passes(eval: CircleEvaluation, twiddles: &TwiddleTree) -> (r: CircleCoefficients)
    requires
        twiddles.wf(),
        eval.wf(),
        eval.domain.half_coset.doubling_of_s(twiddles.root_coset),
        eval.domain.half_coset.log_size >= 2,
    ensures
        r.wf(),
        r.log_size == eval.domain.log_size_s(),
        interpolates(eval, r.coeffs@),
{
    let domain = eval.domain;
    let n: u32 = domain.log_size();
    let ghost v = eval.values@;
    proof {
        lemma_pow2_le(
            domain.half_coset.log_size as nat,
            twiddles.root_coset.log_size as nat,
        );
    }
    let packed = pack_twiddles(domain, &twiddles.itwiddles);
    proof {
        lemma_packed_layers(packed, domain, twiddles.itwiddles@);
        lemma_inverse_transform(*twiddles, domain, packed, v);
    }
    let coeffs = run_ifft(eval.values, &packed, n);
    CircleCoefficients { coeffs, log_size: n }
}

/// The values of a polynomial on a domain, pass after pass.
fn evaluate_in_passes(
    poly: &CircleCoefficients,
    domain: CircleDomain,
    twiddles: &TwiddleTree,
    out: Vec<M31>,
) -> (r: CircleEvaluation)
    requires
        poly.wf(),
        domain.wf(),
        twiddles.wf(),
        domain.half_coset.doubling_of_s(twiddles.root_coset),
        domain.half_coset.log_size >= 2,
        poly.log_size <= domain.log_size_s(),
        out.len() == domain.size_s(),
    ensures
        r.domain == domain,
        evaluates(poly.coeffs@, poly.log_size as nat, r),
{
    let n: u32 = domain.log_size();
    proof {
        lemma_pow2_le(
            domain.half_coset.log_size as nat,
            twiddles.root_coset.log_size as nat,
        );
        lemma_pow2_le(poly.log_size as nat, n as nat);
        lemma_pow2_pos(poly.log_size as nat);
    }
    let packed = pack_twiddles(domain, &twiddles.twiddles);
    proof {
        lemma_packed_layers(packed, domain, twiddles.twiddles@);
        lemma_forward_transform(*twiddles, domain, packed, poly.coeffs@, poly.log_size as nat);
    }
    let values = run_rfft(&poly.coeffs, out, &packed, n);
    CircleEvaluation { domain, values }
}

/// The coefficients of large evaluations; all go back where one is small.
pub fn ifft_batch_metal(columns: Vec<CircleEvaluation>, twiddles: &TwiddleTree) -> (r: Result<
    Vec<CircleCoefficients>,
    Vec<CircleEvaluation>,
>)
    requires
        twiddles.wf(),
        forall|i: int| #![trigger columns@[i]]
            0 <= i < columns.len() ==> columns@[i].wf()
                && columns@[i].domain.half_coset.doubling_of_s(twiddles.root_coset),
    ensures
        r is Err <==> exists|i: int|
            0 <= i < columns@.len() && (#[trigger] columns@[i]).domain.log_size_s() < 14,
        match r {
            Err(same) => same == columns,
            Ok(coeffs) => coeffs@.len() == columns@.len() && forall|i: int| #![trigger coeffs@[i]]
                0 <= i < coeffs@.len() ==> coeffs@[i].wf() && interpolates(
                    columns@[i],
                    coeffs@[i].coeffs@,
                ),
        },
{
    let mut i: usize = 0;
    while i < columns.len()
        invariant
            i <= columns@.len(),
            forall|i: int| #![trigger columns@[i]]
                0 <= i < columns.len() ==> columns@[i].wf()
                    && columns@[i].domain.half_coset.doubling_of_s(twiddles.root_coset),
            forall|j: int| 0 <= j < i ==> (#[trigger] columns@[j]).domain.log_size_s() >= 14,
        decreases columns@.len() - i,
    {
        assert(columns@[i as int].wf());
        if columns[i].domain.log_size() < MIN_METAL_FFT_LOG_SIZE {
            assert(columns@[i as int].domain.log_size_s() < 14);
            return Err(columns);
        }
        i += 1;
    }
    let ghost all = columns@;
    let mut r: Vec<CircleCoefficients> = Vec::new();
    for column in iter: columns
        invariant
            iter.seq() == all,
            twiddles.wf(),
            forall|i: int| #![trigger all[i]]
                0 <= i < all.len() ==> all[i].wf() && all[i].domain.half_coset.doubling_of_s(
                    twiddles.root_coset,
                ) && all[i].domain.log_size_s() >= 14,
            r@.len() == iter.index(),
            forall|i: int| #![trigger r@[i]]
                0 <= i < r@.len() ==> r@[i].wf() && interpolates(all[i], r@[i].coeffs@),
    {
        assert(column == all[iter.index() as int]);
        r.push(interpolate_in_passes(column, twiddles));
    }
    Ok(r)
}

/// The values of a polynomial on a large domain; the buffer goes back where the domain is small
/// or the polynomial a constant.
pub fn rfft_metal(
    coeffs: &CircleCoefficients,
    domain: CircleDomain,
    twiddles: &TwiddleTree,
    out: Vec<M31>,
) -> (r: Result<CircleEvaluation, Vec<M31>>)
    requires
        coeffs.wf(),
        domain.wf(),
        twiddles.wf(),
        domain.half_coset.doubling_of_s(twiddles.root_coset),
        coeffs.log_size <= domain.log_size_s(),
        out.len() == domain.size_s(),
    ensures
        r is Err <==> domain.log_size_s() < 14 || coeffs.coeffs@.len() < 2,
        match r {
            Err(same) => same == out,
            Ok(evals) => evals.domain == domain && evaluates(
                coeffs.coeffs@,
                coeffs.log_size as nat,
                evals,
            ),
        },
{
    if domain.log_size() < MIN_METAL_FFT_LOG_SIZE || coeffs.coeffs.len() < 2 {
        return Err(out);
    }
    Ok(evaluate_in_passes(coeffs, domain, twiddles, out))
}

/// A column made ready for its transforms.
pub struct FusedColumn {
    pub values: Vec<M31>,
    pub domain: CircleDomain,
    /// Whether the values are to be interpolated first.
    pub needs_ifft: bool,
    /// The size of the extension.
    pub ext_size: usize,
}

/// `work` holds what `column` holds.
pub open spec fn unpacks(work: FusedColumn, column: EvalsOrCoeffs, log_blowup: nat) -> bool {
    &&& match column {
        EvalsOrCoeffs::Evals(evals) => work.values == evals.values && work.domain == evals.domain
            && work.needs_ifft,
        EvalsOrCoeffs::Coeffs(coeffs) => work.values == coeffs.coeffs && work.domain
            == canonic_domain(coeffs.log_size as nat) && !work.needs_ifft,
    }
    &&& work.ext_size == pow2(column.log_size_s() + log_blowup)
}

/// Makes a column ready.
pub fn unpack_column(column: EvalsOrCoeffs, log_blowup_factor: u32) -> (r: FusedColumn)
    requires
        column.wf(),
        0 < column.log_size_s(),
        column.log_size_s() + log_blowup_factor <= 30,
    ensures
        unpacks(r, column, log_blowup_factor as nat),
{
    let log = column_log_size(&column);
    let ext_size = pow2_usize(log + log_blowup_factor);
    match column {
        EvalsOrCoeffs::Evals(evals) => FusedColumn {
            values: evals.values,
            domain: evals.domain,
            needs_ifft: true,
            ext_size,
        },
        EvalsOrCoeffs::Coeffs(coeffs) => FusedColumn {
            values: coeffs.coeffs,
            domain: CanonicCoset::new(log).circle_domain(),
            needs_ifft: false,
            ext_size,
        },
    }
}

/// The column that was made ready.
pub fn repack_column(work: FusedColumn) -> (r: EvalsOrCoeffs)
    requires
        is_pow2_len(work.values@.len()),
    ensures
        forall|column: EvalsOrCoeffs, log_blowup: nat|
            column.wf() && #[trigger] unpacks(work, column, log_blowup) ==> r == column,
{
    let ghost made = work;
    let r = if work.needs_ifft {
        EvalsOrCoeffs::Evals(CircleEvaluation { domain: work.domain, values: work.values })
    } else {
        EvalsOrCoeffs::Coeffs(CircleCoefficients::new(work.values))
    };
    proof {
        assert forall|column: EvalsOrCoeffs, log_blowup: nat|
            column.wf() && #[trigger] unpacks(made, column, log_blowup) implies r == column by {
            if let EvalsOrCoeffs::Coeffs(coeffs) = column {
                let other = r->Coeffs_0;
                lemma_pow2_double((other.log_size + 1) as nat);
                lemma_pow2_pos(other.log_size as nat);
                crate::utils::lemma_log_unique(other.log_size as nat, coeffs.log_size as nat);
            }
        }
    }
    r
}

/// A buffer of zeros.
fn zeros(n: usize) -> (r: Vec<M31>)
    ensures
        r.len() == n,
{
    let mut r: Vec<M31> = Vec::with_capacity(n);
    for i in 0..n
        invariant
            r.len() == i,
    {
        r.push(M31(0));
    }
    r
}

/// The twiddles serve the transforms of a column: one tree for its interpolation, one for its
/// extension.
pub open spec fn fits_both(
    column: EvalsOrCoeffs,
    itwiddles: TwiddleTree,
    twiddles: TwiddleTree,
    log_blowup: nat,
) -> bool {
    &&& column.wf()
    &&& 0 < column.log_size_s() + log_blowup <= 30
    &&& canonic_domain(column.log_size_s() + log_blowup).half_coset.doubling_of_s(
        twiddles.root_coset,
    )
    &&& match column {
        EvalsOrCoeffs::Evals(evals) => evals.domain.half_coset.doubling_of_s(
            itwiddles.root_coset,
        ),
        EvalsOrCoeffs::Coeffs(_) => true,
    }
}

/// The columns are interpolated and extended, each in its place.
pub open spec fn all_committed(
    columns: Seq<EvalsOrCoeffs>,
    log_blowup: nat,
    store: bool,
    polys: Seq<Poly>,
) -> bool {
    &&& polys.len() == columns.len()
    &&& forall|i: int|
        0 <= i < polys.len() ==> committed(columns[i], log_blowup, store, #[trigger] polys[i])
}

/// Some column is too small for a pass.
pub open spec fn some_small(columns: Seq<EvalsOrCoeffs>) -> bool {
    exists|i: int| 0 <= i < columns.len() && (#[trigger] columns[i]).log_size_s() < 14
}

/// Interpolates and extends large columns, with the inverse twiddles of a tree of their own where
/// one is given, and goes on with what is chained to the extensions. All columns go back where
/// one is small, and nothing is chained.
pub fn fused_transform_metal_chained<R, C: FnOnce(&Vec<Poly>) -> Option<R>>(
    columns: Vec<EvalsOrCoeffs>,
    log_blowup_factor: u32,
    twiddles: &TwiddleTree,
    ifft_twiddles: Option<&TwiddleTree>,
    store_polynomials_coefficients: bool,
    chain: C,
) -> (r: Result<(Vec<Poly>, Option<R>), Vec<EvalsOrCoeffs>>)
    requires
        twiddles.wf(),
        match ifft_twiddles {
            Some(tree) => tree.wf(),
            None => true,
        },
        forall|i: int|
            0 <= i < columns@.len() ==> fits_both(
                #[trigger] columns@[i],
                match ifft_twiddles {
                    Some(tree) => *tree,
                    None => *twiddles,
                },
                *twiddles,
                log_blowup_factor as nat,
            ),
        forall|polys: Vec<Poly>|
            #![trigger call_requires(chain, (&polys,))]
            !some_small(columns@) && all_committed(
                columns@,
                log_blowup_factor as nat,
                store_polynomials_coefficients,
                polys@,
            ) ==> call_requires(chain, (&polys,)),
    ensures
        r is Err <==> some_small(columns@),
        match r {
            Err(same) => same == columns,
            Ok((polys, chained)) => all_committed(
                columns@,
                log_blowup_factor as nat,
                store_polynomials_coefficients,
                polys@,
            ) && call_ensures(chain, (&polys,), chained),
        },
{
    let itw = match ifft_twiddles {
        Some(tree) => tree,
        None => twiddles,
    };
    let mut i: usize = 0;
    while i < columns.len()
        invariant
            i <= columns@.len(),
            forall|i: int|
                0 <= i < columns@.len() ==> fits_both(
                    #[trigger] columns@[i],
                    *itw,
                    *twiddles,
                    log_blowup_factor as nat,
                ),
            forall|j: int| 0 <= j < i ==> (#[trigger] columns@[j]).log_size_s() >= 14,
        decreases columns@.len() - i,
    {
        assert(fits_both(columns@[i as int], *itw, *twiddles, log_blowup_factor as nat));
        if column_log_size(&columns[i]) < MIN_METAL_FFT_LOG_SIZE {
            assert(columns@[i as int].log_size_s() < 14);
            return Err(columns);
        }
        i += 1;
    }
    let ghost all = columns@;
    let mut r: Vec<Poly> = Vec::new();
    for column in iter: columns
        invariant
            iter.seq() == all,
            twiddles.wf(),
            itw.wf(),
            forall|i: int|
                0 <= i < all.len() ==> fits_both(
                    #[trigger] all[i],
                    *itw,
                    *twiddles,
                    log_blowup_factor as nat,
                ),
            forall|i: int| 0 <= i < all.len() ==> (#[trigger] all[i]).log_size_s() >= 14,
            r.len() == iter.index(),
            forall|i: int|
                0 <= i < r@.len() ==> committed(
                    all[i],
                    log_blowup_factor as nat,
                    store_polynomials_coefficients,
                    #[trigger] r@[i],
                ),
    {
        assert(column == all[iter.index() as int]);
        assert(fits_both(column, *itw, *twiddles, log_blowup_factor as nat));
        proof {
            reveal(committed);
            crate::poly::domain::lemma_canonic_domain_wf(
                (column.log_size_s() + log_blowup_factor) as nat,
            );
        }
        let poly = match column {
            EvalsOrCoeffs::Evals(evals) => interpolate_in_passes(evals, itw),
            EvalsOrCoeffs::Coeffs(coeffs) => coeffs,
        };
        assert(column.has_coeffs(poly.coeffs@));
        let domain = CanonicCoset::new(poly.log_size() + log_blowup_factor).circle_domain();
        let out = zeros(domain.size());
        let evals = evaluate_in_passes(&poly, domain, twiddles, out);
        let coeffs = if store_polynomials_coefficients {
            Some(poly)
        } else {
            None
        };
        r.push(Poly::new(coeffs, evals));
    }
    let chained = chain(&r);
    Ok((r, chained))
}

/// Interpolates and extends large columns, with the inverse twiddles of a tree of their own where
/// one is given. All columns go back where one is small.
pub fn fused_transform_metal_with_itwiddles(
    columns: Vec<EvalsOrCoeffs>,
    log_blowup_factor: u32,
    twiddles: &TwiddleTree,
    ifft_twiddles: Option<&TwiddleTree>,
    store_polynomials_coefficients: bool,
) -> (r: Result<Vec<Poly>, Vec<EvalsOrCoeffs>>)
    requires
        twiddles.wf(),
        match ifft_twiddles {
            Some(tree) => tree.wf(),
            None => true,
        },
        forall|i: int|
            0 <= i < columns@.len() ==> fits_both(
                #[trigger] columns@[i],
                match ifft_twiddles {
                    Some(tree) => *tree,
                    None => *twiddles,
                },
                *twiddles,
                log_blowup_factor as nat,
            ),
    ensures
        r is Err <==> some_small(columns@),
        match r {
            Err(same) => same == columns,
            Ok(polys) => all_committed(
                columns@,
                log_blowup_factor as nat,
                store_polynomials_coefficients,
                polys@,
            ),
        },
{
    let nothing = |_polys: &Vec<Poly>| -> (r: Option<()>) { None };
    match fused_transform_metal_chained(
        columns,
        log_blowup_factor,
        twiddles,
        ifft_twiddles,
        store_polynomials_coefficients,
        nothing,
    ) {
        Ok((polys, _)) => Ok(polys),
        Err(columns) => Err(columns),
    }
}

/// Interpolates and extends large columns. All columns go back where one is small.
pub fn fused_transform_metal(
    columns: Vec<EvalsOrCoeffs>,
    log_blowup_factor: u32,
    twiddles: &TwiddleTree,
    store_polynomials_coefficients: bool,
) -> (r: Result<Vec<Poly>, Vec<EvalsOrCoeffs>>)
    requires
        twiddles.wf(),
        forall|i: int|
            0 <= i < columns@.len() ==> fits_both(
                #[trigger] columns@[i],
                *twiddles,
                *twiddles,
                log_blowup_factor as nat,
            ),
    ensures
        r is Err <==> some_small(columns@),
        match r {
            Err(same) => same == columns,
            Ok(polys) => all_committed(
                columns@,
                log_blowup_factor as nat,
                store_polynomials_coefficients,
                polys@,
            ),
        },
{
    fused_transform_metal_with_itwiddles(
        columns,
        log_blowup_factor,
        twiddles,
        None,
        store_polynomials_coefficients,
    )
}

} // verus!
