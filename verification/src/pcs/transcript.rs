//! A transcript whose challenges are Blake2s digests of everything before them.

use vstd::prelude::*;

use super::channel::{Channel, Step};
use crate::fields::m31::M31;
use crate::fields::qm31::QM31;
use crate::framework::expr::from_coords;
use crate::vcs::blake2s::{
    blake2s_s, blake2s_words, output_s, Blake2sHash, Blake2sMerkleHasherGeneric,
};

verus! {

/// The words of secure elements, one after the other.
pub open spec fn felt_words(felts: Seq<QM31>) -> Seq<u32>
    decreases felts.len(),
{
    if felts.len() == 0 {
        Seq::empty()
    } else {
        felt_words(felts.drop_last()) + felts.last().coords().map_values(|m: M31| m.0)
    }
}

/// The words that a step adds, behind a tag of its kind.
pub open spec fn step_words(step: Step<Blake2sHash>) -> Seq<u32> {
    match step {
        Step::Felts(felts) => seq![0u32] + felt_words(felts),
        Step::Number(value) => seq![
            1u32,
            (value % 0x1_0000_0000) as u32,
            (value / 0x1_0000_0000) as u32,
        ],
        Step::Root(root) => seq![2u32] + root.0@,
        Step::Drawn(_) => seq![3u32],
    }
}

/// The state after some steps: a digest of the state before and the last step.
pub open spec fn state_after(steps: Seq<Step<Blake2sHash>>) -> Seq<u32>
    decreases steps.len(),
{
    if steps.len() == 0 {
        Seq::new(8, |i: int| 0u32)
    } else {
        blake2s_s(state_after(steps.drop_last()) + step_words(steps.last()))
    }
}

/// The element drawn after some steps.
pub open spec fn challenge(steps: Seq<Step<Blake2sHash>>) -> QM31 {
    let d = output_s(blake2s_s(state_after(steps) + seq![4u32]), true);
    from_coords(M31(d[0]), M31(d[1]), M31(d[2]), M31(d[3]))
}

/// The transcript: a digest of its steps.
pub struct Blake2sChannel {
    digest: Blake2sHash,
    taken: Ghost<Seq<Step<Blake2sHash>>>,
}

fn digest_with(state: &Blake2sHash, words: &Vec<u32>, reduced: bool) -> (r: Blake2sHash)
    ensures
        r.0@ == output_s(blake2s_s(state.0@ + words@), reduced),
{
    let ghost all = state.0@ + words@;
    let mut message: Vec<M31> = Vec::new();
    let mut i: usize = 0;
    while i < 8
        invariant
            i <= 8,
            all == state.0@ + words@,
            message@.len() == i,
            forall|j: int| 0 <= j < i ==> (#[trigger] message@[j]).0 == all[j],
        decreases 8 - i,
    {
        message.push(M31(state.0[i]));
        i += 1;
    }
    let mut i: usize = 0;
    while i < words.len()
        invariant
            i <= words@.len(),
            all == state.0@ + words@,
            message@.len() == 8 + i,
            forall|j: int| 0 <= j < 8 + i ==> (#[trigger] message@[j]).0 == all[j],
        decreases words@.len() - i,
    {
        message.push(M31(words[i]));
        i += 1;
    }
    assert(message@.map_values(|m: M31| m.0) =~= all);
    blake2s_words(message.as_slice(), reduced)
}

impl Blake2sChannel {
    pub closed spec fn taken_steps(self) -> Seq<Step<Blake2sHash>> {
        self.taken@
    }

    #[verifier::type_invariant]
    closed spec fn inv(self) -> bool {
        self.digest.0@ == state_after(self.taken@)
    }

    /// A transcript without steps.
    pub fn new() -> (r: Blake2sChannel)
        ensures
            r.taken_steps() == Seq::<Step<Blake2sHash>>::empty(),
    {
        let digest = Blake2sHash([0; 8]);
        assert(digest.0@ =~= state_after(Seq::<Step<Blake2sHash>>::empty()));
        Blake2sChannel { digest, taken: Ghost(Seq::empty()) }
    }

    fn take(&mut self, words: &Vec<u32>, step: Ghost<Step<Blake2sHash>>)
        requires
            words@ == step_words(step@),
        ensures
            final(self).taken_steps() == old(self).taken_steps().push(step@),
    {
        proof {
            use_type_invariant(&*self);
        }
        let digest = digest_with(&self.digest, words, false);
        let ghost after = self.taken@.push(step@);
        assert(after.drop_last() =~= self.taken@);
        *self = Blake2sChannel { digest, taken: Ghost(after) };
    }

    /// The element that the next draw gives: a digest of all steps so far.
    pub fn next_challenge(&self) -> (r: QM31)
        ensures
            r == challenge(self.taken_steps()),
    {
        proof {
            use_type_invariant(self);
        }
        let words: Vec<u32> = vec![4];
        assert(words@ =~= seq![4u32]);
        let d = digest_with(&self.digest, &words, true);
        QM31::from_m31(M31(d.0[0]), M31(d.0[1]), M31(d.0[2]), M31(d.0[3]))
    }
}

impl<const IS_M31_OUTPUT: bool> Channel<Blake2sMerkleHasherGeneric<IS_M31_OUTPUT>>
    for Blake2sChannel {
    open spec fn steps(self) -> Seq<Step<Blake2sHash>> {
        self.taken_steps()
    }

    open spec fn drawn_after(steps: Seq<Step<Blake2sHash>>) -> QM31 {
        challenge(steps)
    }

    fn mix_felts(&mut self, felts: &[QM31]) {
        let mut words: Vec<u32> = vec![0];
        let mut i: usize = 0;
        assert(words@ =~= seq![0u32] + felt_words(felts@.take(0)));
        while i < felts.len()
            invariant
                i <= felts@.len(),
                words@ == seq![0u32] + felt_words(felts@.take(i as int)),
            decreases felts@.len() - i,
        {
            let f = felts[i];
            let ghost before = words@;
            words.push(f.0.0.0);
            words.push(f.0.1.0);
            words.push(f.1.0.0);
            words.push(f.1.1.0);
            proof {
                let now = felts@.take(i + 1);
                assert(now.drop_last() =~= felts@.take(i as int));
                assert(now.last() == f);
                assert(words@ =~= before + f.coords().map_values(|m: M31| m.0));
                assert(words@ =~= seq![0u32] + felt_words(now));
            }
            i += 1;
        }
        assert(felts@.take(felts@.len() as int) =~= felts@);
        self.take(&words, Ghost(Step::Felts(felts@)));
    }

    fn mix_u64(&mut self, value: u64) {
        let words: Vec<u32> = vec![1, (value % 0x1_0000_0000) as u32, (value / 0x1_0000_0000) as u32];
        assert(words@ =~= step_words(Step::Number(value)));
        self.take(&words, Ghost(Step::Number(value)));
    }

    fn mix_root(&mut self, root: Blake2sHash) {
        let mut words: Vec<u32> = vec![2];
        let mut i: usize = 0;
        while i < 8
            invariant
                i <= 8,
                words@ == seq![2u32] + root.0@.take(i as int),
            decreases 8 - i,
        {
            words.push(root.0[i]);
            i += 1;
            assert(words@ =~= seq![2u32] + root.0@.take(i as int));
        }
        assert(root.0@.take(8) =~= root.0@);
        self.take(&words, Ghost(Step::Root(root)));
    }

    fn draw_secure_felt(&mut self) -> (r: QM31) {
        let r = self.next_challenge();
        let words: Vec<u32> = vec![3];
        assert(words@ =~= step_words(Step::Drawn(r)));
        self.take(&words, Ghost(Step::Drawn(r)));
        r
    }
}

} // verus!
