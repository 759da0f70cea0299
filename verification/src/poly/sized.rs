//! Smaller twiddle towers are the ends of larger ones.

use vstd::arithmetic::div_mod::lemma_small_mod;
use vstd::arithmetic::power2::{lemma2_to64, lemma_pow2_pos, pow2};
use vstd::prelude::*;

use super::fft::lemma_same_doubling;
use super::twiddles::{
    is_tower, layer_twiddle, lemma_tower_place, tower_index, TwiddleTree,
};
use crate::circle::{circle_order, lemma_coset_canonical, Coset};
use crate::fields::lemma_inverse_unique;
use crate::fields::m31::M31;
use crate::fields::Field;
use crate::utils::lemma_pow2_le;

verus! {

/// The layers below a doubled coset are layers below the coset itself.
proof fn lemma_layer_below(root: Coset, small: Coset, m: int, h: int)
    requires
        root.wf(),
        small.wf(),
        small.doubling_of_s(root),
        0 <= m < small.log_size,
    ensures
        layer_twiddle(small, m, h) == layer_twiddle(root, m, h),
{
    lemma_same_doubling(
        root,
        small,
        (small.log_size - 1 - m) as nat,
        (root.log_size - 1 - m) as nat,
    );
}

/// The tower below a doubled coset is the end of the tower below the coset.
proof fn lemma_tower_suffix(root: Coset, small: Coset, full: Seq<M31>, tower: Seq<M31>)
    requires
        root.wf(),
        small.wf(),
        small.doubling_of_s(root),
        is_tower(root, full),
        is_tower(small, tower),
    ensures
        tower.len() <= full.len(),
        tower == full.skip(full.len() - tower.len()),
{
    let big = root.log_size as nat;
    let log = small.log_size as nat;
    lemma_pow2_le(log, big);
    lemma_pow2_pos(log);
    let off = full.len() - tower.len();
    assert forall|i: int| 0 <= i < tower.len() implies tower[i] == #[trigger] full.skip(off)[i] by {
        if i < tower.len() - 1 {
            lemma_tower_place(log, i);
            let (m, h) = choose|m: int, h: int|
                0 <= m < log && 0 <= h < pow2(m as nat) && i == #[trigger] tower_index(log, m, h);
            lemma_layer_below(root, small, m, h);
            assert(tower[tower_index(log, m, h)] == layer_twiddle(small, m, h));
            assert(full[tower_index(big, m, h)] == layer_twiddle(root, m, h));
            assert(tower_index(big, m, h) == off + i);
        }
    }
    assert(tower =~= full.skip(off));
}

/// Right-sized twiddles are exact: those below a doubled coset, and their inverses, are the ends
/// of those below the coset itself.
pub proof fn lemma_sized_twiddles(full: TwiddleTree, sized: TwiddleTree)
    requires
        full.wf(),
        sized.wf(),
        sized.root_coset.doubling_of_s(full.root_coset),
    ensures
        sized.twiddles@.len() <= full.twiddles@.len(),
        sized.twiddles@ == full.twiddles@.skip(full.twiddles@.len() - sized.twiddles@.len()),
        sized.itwiddles@ == full.itwiddles@.skip(full.twiddles@.len() - sized.twiddles@.len()),
{
    lemma_tower_suffix(full.root_coset, sized.root_coset, full.twiddles@, sized.twiddles@);
    let off = full.twiddles@.len() - sized.twiddles@.len();
    assert forall|i: int| 0 <= i < sized.itwiddles@.len() implies sized.itwiddles@[i]
        == #[trigger] full.itwiddles@.skip(off)[i] by {
        let t = sized.twiddles@[i];
        assert(t == full.twiddles@.skip(off)[i]);
        assert(t.times(sized.itwiddles@[i]) == M31::one_el());
        assert(full.twiddles@[off + i].times(full.itwiddles@[off + i]) == M31::one_el());
        lemma_inverse_unique(t, sized.itwiddles@[i], full.itwiddles@[off + i]);
    }
    assert(sized.itwiddles@ =~= full.itwiddles@.skip(off));
}

/// A root settles its twiddles and their inverses, however they were computed.
pub proof fn lemma_twiddles_determined(a: TwiddleTree, b: TwiddleTree)
    requires
        a.wf(),
        b.wf(),
        a.root_coset == b.root_coset,
    ensures
        a.twiddles@ == b.twiddles@,
        a.itwiddles@ == b.itwiddles@,
{
    let root = a.root_coset;
    lemma2_to64();
    assert(pow2(0) * root.initial_index.0 == root.initial_index.0);
    lemma_small_mod(root.initial_index.0 as nat, circle_order());
    lemma_coset_canonical(root);
    assert(root.repeated_double_s(0) == root);
    lemma_sized_twiddles(a, b);
    assert(a.twiddles@.skip(0) =~= a.twiddles@);
    assert(a.itwiddles@.skip(0) =~= a.itwiddles@);
}

} // verus!
