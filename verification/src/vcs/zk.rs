//! Salts for hiding commitments.
//!
//! Every leaf of a salted tree is hashed once more, together with a secret salt of its own. The
//! tree keeps its height and its inner layers. The salts are derived from a secret seed that never
//! leaves the prover.

use rand::{Rng, SeedableRng};
use vstd::prelude::*;

use super::hasher::MerkleHasherLifted;
use crate::fields::m31::M31;
use crate::fields::prime::P;

verus! {

/// The number of base field elements in a seed.
pub const ZK_SALT_SEED_LEN: usize = 8;

/// The secret seed of one tree.
#[derive(Clone, Copy, Debug, PartialEq, Eq)]
pub struct SaltSeed(pub [M31; 8]);

/// The salt of a leaf: the hash of the seed followed by the index of the leaf.
pub open spec fn salt_s<H: MerkleHasherLifted>(seed: SaltSeed, index: int) -> H::Hash {
    H::leaf_hash(seq![seed.0@.push(M31(index as u32))])
}

/// The salt of a leaf.
pub fn derive_salt<H: MerkleHasherLifted>(seed: &SaltSeed, index: usize) -> (r: H::Hash)
    requires
        index < P,
    ensures
        r == salt_s::<H>(*seed, index as int),
{
    let input: [M31; 9] = [
        seed.0[0],
        seed.0[1],
        seed.0[2],
        seed.0[3],
        seed.0[4],
        seed.0[5],
        seed.0[6],
        seed.0[7],
        M31(index as u32),
    ];
    let mut hasher = H::fresh();
    assert(input@ =~= seed.0@.push(M31(index as u32)));
    hasher.update_leaf(input.as_slice());
    assert(hasher.pieces() =~= seq![seed.0@.push(M31(index as u32))]);
    hasher.finalize()
}

/// The salted leaves.
pub open spec fn salted_s<H: MerkleHasherLifted>(leaves: Seq<H::Hash>, seed: SaltSeed) -> Seq<
    H::Hash,
> {
    Seq::new(leaves.len(), |i: int| H::children_hash(leaves[i], salt_s::<H>(seed, i)))
}

/// Replaces every leaf by its hash with its salt.
pub fn fold_salts<H: MerkleHasherLifted>(leaves: &Vec<H::Hash>, seed: &SaltSeed) -> (r: Vec<
    H::Hash,
>)
    requires
        leaves.len() <= P,
    ensures
        r@ == salted_s::<H>(leaves@, *seed),
{
    let n: usize = leaves.len();
    let mut r: Vec<H::Hash> = Vec::with_capacity(n);
    for i in 0..n
        invariant
            n == leaves.len(),
            n <= P,
            r@ == salted_s::<H>(leaves@, *seed).take(i as int),
    {
        let salt = derive_salt::<H>(seed, i);
        r.push(H::hash_children(leaves[i], salt));
        assert(r@ =~= salted_s::<H>(leaves@, *seed).take(i + 1));
    }
    assert(r@ =~= salted_s::<H>(leaves@, *seed));
    r
}

/// The salts of the given leaves, in their order.
pub fn salts_for_positions<H: MerkleHasherLifted>(seed: &SaltSeed, deduped_positions: &Vec<
    usize,
>) -> (r: Vec<H::Hash>)
    requires
        forall|k: int|
            0 <= k < deduped_positions.len() ==> #[trigger] deduped_positions@[k] < P,
    ensures
        r.len() == deduped_positions.len(),
        forall|k: int|
            0 <= k < r.len() ==> #[trigger] r@[k] == salt_s::<H>(
                *seed,
                deduped_positions@[k] as int,
            ),
{
    let n: usize = deduped_positions.len();
    let mut r: Vec<H::Hash> = Vec::with_capacity(n);
    for k in 0..n
        invariant
            n == deduped_positions.len(),
            forall|i: int|
                0 <= i < deduped_positions.len() ==> #[trigger] deduped_positions@[i] < P,
            r.len() == k,
            forall|i: int|
                0 <= i < k ==> #[trigger] r@[i] == salt_s::<H>(
                    *seed,
                    deduped_positions@[i] as int,
                ),
    {
        assert(deduped_positions@[k as int] < P);
        r.push(derive_salt::<H>(seed, deduped_positions[k]));
    }
    r
}

/// A salted leaf opens as the verifier rebuilds it: the leaf hashed with the salt sent along.
pub proof fn lemma_salted_opening<H: MerkleHasherLifted>(
    leaves: Seq<H::Hash>,
    seed: SaltSeed,
    positions: Seq<usize>,
    salts: Seq<H::Hash>,
    k: int,
)
    requires
        0 <= k < positions.len(),
        salts.len() == positions.len(),
        positions[k] < leaves.len(),
        forall|i: int|
            0 <= i < salts.len() ==> #[trigger] salts[i] == salt_s::<H>(seed, positions[i] as int),
    ensures
        salted_s::<H>(leaves, seed).len() == leaves.len(),
        salted_s::<H>(leaves, seed)[positions[k] as int] == H::children_hash(
            leaves[positions[k] as int],
            salts[k],
        ),
{
    assert(salts[k] == salt_s::<H>(seed, positions[k] as int));
}

/// The generator of `rand` that draws the seeds.
#[verifier::external_type_specification]
#[verifier::external_body]
pub struct ExStdRng(rand::rngs::StdRng);

/// A generator seeded from the entropy of the operating system (`rand::SeedableRng::from_rng` on
/// `rand::rngs::OsRng`), or nothing where the system has none to give. Which of the two, and what
/// the generator will draw, is left open.
#[verifier::external_body]
fn rng_from_entropy() -> (r: Option<rand::rngs::StdRng>) {
    rand::rngs::StdRng::from_rng(rand::rngs::OsRng).ok()
}

/// The operating system had no entropy to give for a seed.
#[derive(Clone, Copy, Debug, PartialEq, Eq, Structural)]
pub struct EntropyUnavailable;

/// Bounds below each of which a number can be drawn.
pub open spec fn drawable(bounds: Seq<u32>) -> bool {
    bounds.len() > 0 && forall|i: int| 0 <= i < bounds.len() ==> #[trigger] bounds[i] > 0
}

/// The last of the numbers that a generator gives when it is asked for one number below each of
/// the bounds, in their order.
pub uninterp spec fn draw_after(rng: rand::rngs::StdRng, bounds: Seq<u32>) -> u32;

/// The last of the numbers that a generator seeded from a number gives, likewise.
pub uninterp spec fn seeded_draw(seed: u64, bounds: Seq<u32>) -> u32;

/// A generator seeded from a number (`rand::SeedableRng::seed_from_u64`): the number settles all
/// that it will draw.
#[verifier::external_body]
fn rng_from_seed(seed: u64) -> (r: rand::rngs::StdRng)
    ensures
        forall|bounds: Seq<u32>|
            drawable(bounds) ==> #[trigger] draw_after(r, bounds) == seeded_draw(seed, bounds),
{
    rand::rngs::StdRng::seed_from_u64(seed)
}

/// A number drawn below a bound (`rand::Rng::gen_range` on `0..bound`). The state of the generator
/// settles the number, and the state after it is that of a generator asked once.
#[verifier::external_body]
fn rng_below(rng: &mut rand::rngs::StdRng, bound: u32) -> (r: u32)
    requires
        bound > 0,
    ensures
        r < bound,
        r == draw_after(*old(rng), seq![bound]),
        forall|bounds: Seq<u32>|
            drawable(bounds) ==> #[trigger] draw_after(*final(rng), bounds) == draw_after(
                *old(rng),
                seq![bound] + bounds,
            ),
{
    rng.gen_range(0..bound)
}

/// The source of the seeds. It must be independent of the transcript, which is public.
pub struct ZkRng {
    rng: rand::rngs::StdRng,
}

/// A seed with the given limbs.
pub fn salt_seed(limbs: [u32; 8]) -> (r: SaltSeed)
    ensures
        forall|k: int| 0 <= k < 8 ==> #[trigger] r.0@[k] == M31(limbs@[k]),
{
    SaltSeed(
        [
            M31(limbs[0]),
            M31(limbs[1]),
            M31(limbs[2]),
            M31(limbs[3]),
            M31(limbs[4]),
            M31(limbs[5]),
            M31(limbs[6]),
            M31(limbs[7]),
        ],
    )
}

/// The bound of a field element, `n` times over.
pub open spec fn element_bounds(n: nat) -> Seq<u32> {
    Seq::new(n, |i: int| P)
}

impl ZkRng {
    /// The last of the field elements that `n` draws will give, as a number.
    pub closed spec fn element(self, n: nat) -> u32 {
        draw_after(self.rng, element_bounds(n))
    }

    /// Seeded from the operating system, where it has entropy to give.
    pub fn from_os() -> (r: Option<ZkRng>) {
        match rng_from_entropy() {
            Some(rng) => Some(ZkRng { rng }),
            None => None,
        }
    }

    /// Seeded from a number; such seeds hide nothing.
    pub fn from_test_seed(seed: u64) -> (r: ZkRng)
        ensures
            forall|n: nat|
                n > 0 ==> #[trigger] r.element(n) == seeded_draw(seed, element_bounds(n)),
    {
        let r = ZkRng { rng: rng_from_seed(seed) };
        proof {
            assert forall|n: nat| n > 0 implies #[trigger] r.element(n) == seeded_draw(
                seed,
                element_bounds(n),
            ) by {
                assert(drawable(element_bounds(n)));
            }
        }
        r
    }

    /// The next field element, as a number.
    fn draw_element(&mut self) -> (r: u32)
        ensures
            r < P,
            r == old(self).element(1),
            forall|n: nat| n > 0 ==> #[trigger] final(self).element(n) == old(self).element(n + 1),
    {
        let r: u32 = rng_below(&mut self.rng, P);
        proof {
            assert(element_bounds(1) =~= seq![P]);
            assert forall|n: nat| n > 0 implies #[trigger] self.element(n) == old(self).element(
                n + 1,
            ) by {
                assert(drawable(element_bounds(n)));
                assert(seq![P] + element_bounds(n) =~= element_bounds(n + 1));
            }
        }
        r
    }

    /// A fresh seed: the next eight field elements.
    pub fn draw_salt_seed(&mut self) -> (r: SaltSeed)
        ensures
            forall|k: int|
                0 <= k < 8 ==> (#[trigger] r.0@[k]).0 < P && r.0@[k].0 == old(self).element(
                    (k + 1) as nat,
                ),
            forall|n: nat| n > 0 ==> #[trigger] final(self).element(n) == old(self).element(n + 8),
    {
        let mut limbs: [u32; 8] = [0;8];
        for k in 0..8usize
            invariant
                forall|i: int|
                    0 <= i < k ==> (#[trigger] limbs@[i]) < P && limbs@[i] == old(self).element(
                        (i + 1) as nat,
                    ),
                forall|n: nat|
                    n > 0 ==> #[trigger] self.element(n) == old(self).element((n + k) as nat),
        {
            let ghost before = *self;
            limbs[k] = self.draw_element();
            proof {
                assert(before.element(1) == old(self).element((1 + k) as nat));
                assert forall|n: nat| n > 0 implies #[trigger] self.element(n) == old(
                    self,
                ).element((n + (k + 1)) as nat) by {
                    assert(before.element(n + 1) == old(self).element((n + 1 + k) as nat));
                }
            }
        }
        salt_seed(limbs)
    }
}

/// Two sources seeded from one number draw the same seeds.
pub proof fn lemma_seeded_sources_agree(a: ZkRng, b: ZkRng, seed: u64, n: nat)
    requires
        forall|k: nat| k > 0 ==> #[trigger] a.element(k) == seeded_draw(seed, element_bounds(k)),
        forall|k: nat| k > 0 ==> #[trigger] b.element(k) == seeded_draw(seed, element_bounds(k)),
        n > 0,
    ensures
        a.element(n) == b.element(n),
{
}

} // verus!
