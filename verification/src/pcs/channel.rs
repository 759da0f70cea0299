//! The transcript between prover and verifier.

use vstd::prelude::*;

use crate::fields::qm31::QM31;
use crate::vcs::hasher::MerkleHasherLifted;

verus! {

/// One step of a transcript.
pub enum Step<Hash> {
    /// Elements that were mixed in.
    Felts(Seq<QM31>),
    /// A number that was mixed in.
    Number(u64),
    /// A root that was mixed in.
    Root(Hash),
    /// An element that was drawn.
    Drawn(QM31),
}

/// A transcript that values are mixed into and challenges are drawn from.
pub trait Channel<H: MerkleHasherLifted>: Sized {
    /// The steps so far.
    spec fn steps(self) -> Seq<Step<H::Hash>>;

    /// The element that is drawn after some steps.
    spec fn drawn_after(steps: Seq<Step<H::Hash>>) -> QM31;

    fn mix_felts(&mut self, felts: &[QM31])
        ensures
            final(self).steps() == old(self).steps().push(Step::Felts(felts@)),
    ;

    fn mix_u64(&mut self, value: u64)
        ensures
            final(self).steps() == old(self).steps().push(Step::Number(value)),
    ;

    fn mix_root(&mut self, root: H::Hash)
        ensures
            final(self).steps() == old(self).steps().push(Step::Root(root)),
    ;

    fn draw_secure_felt(&mut self) -> (r: QM31)
        ensures
            r == Self::drawn_after(old(self).steps()),
            final(self).steps() == old(self).steps().push(Step::Drawn(r)),
    ;
}

} // verus!
