//! The interface of a hasher for Merkle trees over base field columns.

use vstd::prelude::*;

use crate::fields::m31::M31;

verus! {

/// A hasher that absorbs leaf values piece by piece, and hashes pairs of child nodes.
pub trait MerkleHasherLifted: Sized {
    type Hash: Copy;

    /// The pieces absorbed so far.
    spec fn pieces(self) -> Seq<Seq<M31>>;

    /// The hash of a leaf with the given pieces.
    spec fn leaf_hash(pieces: Seq<Seq<M31>>) -> Self::Hash;

    /// The hash of two children.
    spec fn children_hash(left: Self::Hash, right: Self::Hash) -> Self::Hash;

    /// A hasher that has absorbed nothing.
    fn fresh() -> (r: Self)
        ensures
            r.pieces() == Seq::<Seq<M31>>::empty(),
    ;

    /// A hasher in the same state.
    fn duplicate(&self) -> (r: Self)
        ensures
            r.pieces() == self.pieces(),
    ;

    /// Absorbs one more piece.
    fn update_leaf(&mut self, column_values: &[M31])
        ensures
            final(self).pieces() == old(self).pieces().push(column_values@),
    ;

    /// The hash of what was absorbed.
    fn finalize(self) -> (r: Self::Hash)
        ensures
            r == Self::leaf_hash(self.pieces()),
    ;

    fn hash_children(left: Self::Hash, right: Self::Hash) -> (r: Self::Hash)
        ensures
            r == Self::children_hash(left, right),
    ;
}

} // verus!
