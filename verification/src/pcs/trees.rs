//! The trees of a scheme, each its own or lent to it.

use vstd::prelude::*;

use super::tree::CommitmentTreeProver;
use crate::vcs::hasher::MerkleHasherLifted;

verus! {

/// A value that is held, or one that is lent.
pub enum MaybeOwned<'a, T> {
    Owned(T),
    Borrowed(&'a T),
}

impl<'a, T> MaybeOwned<'a, T> {
    /// The value, however it is held.
    pub open spec fn value(self) -> T {
        match self {
            MaybeOwned::Owned(value) => value,
            MaybeOwned::Borrowed(value) => *value,
        }
    }

    pub fn get(&self) -> (r: &T)
        ensures
            *r == self.value(),
    {
        match self {
            MaybeOwned::Owned(value) => value,
            MaybeOwned::Borrowed(value) => value,
        }
    }
}

/// Trees in the order in which they were committed. Their view is the trees themselves.
pub struct CommittedTrees<'a, H: MerkleHasherLifted> {
    pub items: Vec<MaybeOwned<'a, CommitmentTreeProver<H>>>,
}

impl<'a, H: MerkleHasherLifted> View for CommittedTrees<'a, H> {
    type V = Seq<CommitmentTreeProver<H>>;

    open spec fn view(&self) -> Seq<CommitmentTreeProver<H>> {
        Seq::new(self.items@.len(), |t: int| self.items@[t].value())
    }
}

impl<'a, H: MerkleHasherLifted> CommittedTrees<'a, H> {
    /// Whether the scheme holds the tree itself.
    pub open spec fn owned(self, t: int) -> bool {
        self.items@[t] is Owned
    }

    pub fn new() -> (r: Self)
        ensures
            r.items@.len() == 0,
            r@ == Seq::<CommitmentTreeProver<H>>::empty(),
    {
        let r = CommittedTrees { items: Vec::new() };
        assert(r@ =~= Seq::<CommitmentTreeProver<H>>::empty());
        r
    }

    pub open spec fn len_s(&self) -> usize {
        self.items.len()
    }

    #[verifier::when_used_as_spec(len_s)]
    pub fn len(&self) -> (r: usize)
        ensures
            r == self.len_s(),
            r == self@.len(),
    {
        self.items.len()
    }

    pub fn get(&self, t: usize) -> (r: &CommitmentTreeProver<H>)
        requires
            t < self@.len(),
        ensures
            *r == self@[t as int],
    {
        self.items[t].get()
    }

    /// Adds a tree behind the others.
    pub fn push(&mut self, tree: MaybeOwned<'a, CommitmentTreeProver<H>>)
        ensures
            final(self).items@ == old(self).items@.push(tree),
            final(self)@ == old(self)@.push(tree.value()),
    {
        self.items.push(tree);
        assert(self@ =~= old(self)@.push(tree.value()));
    }
}

} // verus!
