//! The prover side of the commitment scheme.

use vstd::prelude::*;

use super::channel::{Channel, Step};
use super::config::{PcsConfig, TreeSubspan};
use super::samples::{
    batch_evaluation_samples, batched_coefficient_samples, build_map, coefficient_value,
    evaluation_value, is_place, key_column, map_covers, place_key, polys_fit, precedes,
    same_shape, samples_for, value_at, weights_defined, PointSample,
};
use super::tree::{lifted_height, poly_in_tree, CommitmentTreeProver};
use super::trees::{CommittedTrees, MaybeOwned};
use super::weights::WeightsHashMap;
use crate::circle::CirclePoint;
use crate::fields::qm31::QM31;
use crate::poly::circle_poly::{CircleCoefficients, CircleEvaluation, EvalsOrCoeffs, Poly};
use crate::poly::extension::{committed, draw_all, small_columns};
use crate::poly::pool::BaseColumnPool;
use crate::poly::twiddles::TwiddleTree;
use crate::vcs::hasher::MerkleHasherLifted;
use crate::vcs::zk::{EntropyUnavailable, SaltSeed, ZkRng};

verus! {

/// The trees committed so far, and what further ones need.
pub struct CommitmentSchemeProver<'a, H: MerkleHasherLifted> {
    pub trees: CommittedTrees<'a, H>,
    pub config: PcsConfig,
    pub twiddles: &'a TwiddleTree,
    pub store_polynomials_coefficients: bool,
    /// Buffers for the extension of columns.
    pub base_column_pool: BaseColumnPool,
}

/// The columns of all trees, for reading.
pub struct Trace<'t> {
    pub polys: Vec<Vec<&'t Poly>>,
}

/// Whether `polys` refers to the polynomials of all trees, in order.
pub open spec fn refers_to<'t, H: MerkleHasherLifted>(
    trees: Seq<CommitmentTreeProver<H>>,
    polys: Seq<Vec<&'t Poly>>,
) -> bool {
    &&& polys.len() == trees.len()
    &&& forall|t: int|
        0 <= t < trees.len() ==> (#[trigger] polys[t])@.len() == trees[t].polynomials@.len()
    &&& forall|t: int, c: int|
        #![trigger polys[t]@[c]]
        0 <= t < trees.len() && 0 <= c < polys[t]@.len() ==> *polys[t]@[c]
            == trees[t].polynomials@[c]
}

impl<'a, H: MerkleHasherLifted> CommitmentSchemeProver<'a, H> {
    pub open spec fn wf(self) -> bool {
        &&& self.twiddles.wf()
        &&& self.base_column_pool.wf()
        &&& forall|t: int| 0 <= t < self.trees.len() ==> (#[trigger] self.trees@[t]).wf()
    }

    /// A scheme without trees. Coefficients are not kept.
    pub fn new(config: PcsConfig, twiddles: &'a TwiddleTree) -> (r: Self)
        requires
            twiddles.wf(),
        ensures
            r.wf(),
            r.trees.len() == 0,
            r.config == config,
            r.twiddles == twiddles,
            !r.store_polynomials_coefficients,
            r.base_column_pool.held() == Seq::new(32, |k: int| 0nat),
    {
        CommitmentSchemeProver {
            trees: CommittedTrees::new(),
            config,
            twiddles,
            store_polynomials_coefficients: false,
            base_column_pool: BaseColumnPool::new(),
        }
    }

    /// A scheme without trees that takes its buffers from the given pool.
    pub fn with_memory_pool(
        config: PcsConfig,
        twiddles: &'a TwiddleTree,
        base_column_pool: BaseColumnPool,
    ) -> (r: Self)
        requires
            twiddles.wf(),
            base_column_pool.wf(),
        ensures
            r.wf(),
            r.trees.len() == 0,
            r.config == config,
            r.twiddles == twiddles,
            !r.store_polynomials_coefficients,
            r.base_column_pool == base_column_pool,
    {
        CommitmentSchemeProver {
            trees: CommittedTrees::new(),
            config,
            twiddles,
            store_polynomials_coefficients: false,
            base_column_pool,
        }
    }

    /// Keeps coefficients from the next commitment on.
    pub fn set_store_polynomials_coefficients(&mut self)
        ensures
            final(self).store_polynomials_coefficients,
            final(self).trees == old(self).trees,
            final(self).config == old(self).config,
            final(self).twiddles == old(self).twiddles,
            final(self).base_column_pool == old(self).base_column_pool,
    {
        self.store_polynomials_coefficients = true;
    }

    /// Whether columns can be committed.
    pub open spec fn columns_fit(self, columns: Seq<EvalsOrCoeffs>) -> bool {
        let log_blowup = self.config.fri_config.log_blowup_factor as nat;
        &&& forall|i: int|
            0 <= i < columns.len() ==> (#[trigger] columns[i]).fits(
                self.twiddles.root_coset,
                log_blowup,
            )
        &&& self.config.lifting_log_size is Some ==> self.config.lifting_log_size->0 <= 30
        &&& self.config.lifting_log_size is Some ==> forall|i: int|
            0 <= i < columns.len() ==> (#[trigger] columns[i]).log_size_s() + log_blowup
                <= self.config.lifting_log_size->0
    }

    /// `tree` is a tree of the given columns, extended as this scheme extends them.
    pub open spec fn is_tree_of(
        self,
        columns: Seq<EvalsOrCoeffs>,
        tree: CommitmentTreeProver<H>,
    ) -> bool {
        &&& tree.wf()
        &&& tree.polynomials.len() == columns.len()
        &&& forall|i: int|
            0 <= i < columns.len() ==> committed(
                columns[i],
                self.config.fri_config.log_blowup_factor as nat,
                self.store_polynomials_coefficients,
                #[trigger] tree.polynomials@[i],
            )
        &&& tree.commitment.height() == if columns.len() == 0 {
            0
        } else {
            lifted_height(tree.polynomials@, self.config.lifting_log_size)
        }
    }

    /// `tree` is the tree of the given columns, as the next of this scheme: with the columns
    /// extended, and salted if the scheme salts and it is not the first.
    pub open spec fn is_next_tree(
        self,
        columns: Seq<EvalsOrCoeffs>,
        tree: CommitmentTreeProver<H>,
    ) -> bool {
        &&& self.is_tree_of(columns, tree)
        &&& tree.commitment.salt_seed is Some <==> self.salts_next()
    }

    /// Whether the trees are those of the given columns, in order.
    pub open spec fn committed_to(self, columns: Seq<Seq<EvalsOrCoeffs>>) -> bool {
        &&& self.trees@.len() == columns.len()
        &&& forall|t: int|
            0 <= t < columns.len() ==> self.columns_fit(#[trigger] columns[t]) && self.is_tree_of(
                columns[t],
                self.trees@[t],
            )
    }

    /// Committing more columns adds them to those committed before.
    pub proof fn lemma_committed_to_grows(
        self,
        after: Self,
        columns: Seq<Seq<EvalsOrCoeffs>>,
        more: Seq<EvalsOrCoeffs>,
    )
        requires
            self.committed_to(columns),
            self.columns_fit(more),
            self.is_next_tree(more, after.trees@.last()),
            self.grown_by(after, after.trees@.last()),
        ensures
            after.committed_to(columns.push(more)),
    {
        let all = columns.push(more);
        assert forall|t: int| 0 <= t < all.len() implies after.columns_fit(#[trigger] all[t])
            && after.is_tree_of(all[t], after.trees@[t]) by {
            if t < columns.len() {
                assert(all[t] == columns[t]);
                assert(after.trees@[t] == after.trees@.drop_last()[t]);
            }
        }
    }

    /// `after` is this scheme with one more tree.
    pub open spec fn grown_by(self, after: Self, tree: CommitmentTreeProver<H>) -> bool {
        &&& after.trees.len() == self.trees.len() + 1
        &&& after.trees@.drop_last() == self.trees@
        &&& after.trees@.last() == tree
        &&& after.trees.items@.drop_last() == self.trees.items@
        &&& after.config == self.config
        &&& after.twiddles == self.twiddles
        &&& after.store_polynomials_coefficients == self.store_polynomials_coefficients
    }

    /// Whether the next tree is salted: all but the first are, if the scheme salts.
    pub open spec fn salts_next(self) -> bool {
        self.config.zk && self.trees.len() > 0
    }

    /// Extends columns, commits to them, mixes the root into the transcript, and keeps the tree.
    /// A salted tree draws its seed from the operating system; where that has none to give, nothing
    /// is committed.
    pub fn commit<C: Channel<H>>(&mut self, columns: Vec<EvalsOrCoeffs>, channel: &mut C) -> (r:
        Result<(), EntropyUnavailable>)
        requires
            old(self).wf(),
            old(self).columns_fit(columns@),
        ensures
            !old(self).salts_next() ==> r is Ok,
            r is Err ==> *final(self) == *old(self) && *final(channel) == *old(channel),
            r is Ok ==> {
                &&& final(self).wf()
                &&& old(self).grown_by(*final(self), final(self).trees@.last())
                &&& old(self).is_next_tree(columns@, final(self).trees@.last())
                &&& final(self).trees.items@.last() is Owned
                &&& final(self).base_column_pool.held() == draw_all(
                    old(self).base_column_pool.held(),
                    small_columns(columns@),
                    old(self).config.fri_config.log_blowup_factor as nat,
                )
                &&& final(channel).steps() == old(channel).steps().push(
                    Step::Root(final(self).trees@.last().commitment.root_s()),
                )
            },
    {
        if !(self.config.zk && self.trees.len() > 0) {
            self.commit_with_seed(columns, None, channel);
            return Ok(());
        }
        match ZkRng::from_os() {
            Some(mut rng) => {
                let seed = rng.draw_salt_seed();
                self.commit_with_seed(columns, Some(seed), channel);
                Ok(())
            },
            None => Err(EntropyUnavailable),
        }
    }

    /// Extends columns, commits to them with the given seed of salts, mixes the root into the
    /// transcript, and keeps the tree.
    pub fn commit_with_seed<C: Channel<H>>(
        &mut self,
        columns: Vec<EvalsOrCoeffs>,
        salt_seed: Option<SaltSeed>,
        channel: &mut C,
    )
        requires
            old(self).wf(),
            old(self).columns_fit(columns@),
            salt_seed is Some <==> old(self).salts_next(),
        ensures
            final(self).wf(),
            old(self).grown_by(*final(self), final(self).trees@.last()),
            old(self).is_next_tree(columns@, final(self).trees@.last()),
            final(self).trees.items@.last() is Owned,
            final(self).trees@.last().commitment.salt_seed == salt_seed,
            final(self).base_column_pool.held() == draw_all(
                old(self).base_column_pool.held(),
                small_columns(columns@),
                old(self).config.fri_config.log_blowup_factor as nat,
            ),
            final(channel).steps() == old(channel).steps().push(
                Step::Root(final(self).trees@.last().commitment.root_s()),
            ),
    {
        let ghost before = self.trees@;
        let ghost items = self.trees.items@;
        let tree = CommitmentTreeProver::<H>::new(
            columns,
            self.config.fri_config.log_blowup_factor,
            self.twiddles,
            self.store_polynomials_coefficients,
            self.config.lifting_log_size,
            salt_seed,
            &mut self.base_column_pool,
        );
        channel.mix_root(tree.commitment.root());
        self.trees.push(MaybeOwned::Owned(tree));
        assert(self.trees@.drop_last() =~= before);
        assert(self.trees.items@.drop_last() =~= items);
        assert forall|t: int| 0 <= t < self.trees.len() implies (#[trigger] self.trees@[t]).wf() by {
            if t < before.len() {
                assert(before[t].wf());
            }
        }
    }

    /// Keeps a tree that was made elsewhere, its own or lent, and mixes its root into the
    /// transcript.
    pub fn commit_tree<C: Channel<H>>(
        &mut self,
        tree: MaybeOwned<'a, CommitmentTreeProver<H>>,
        channel: &mut C,
    )
        requires
            old(self).wf(),
            tree.value().wf(),
        ensures
            final(self).wf(),
            old(self).grown_by(*final(self), tree.value()),
            final(self).trees.items@.last() == tree,
            final(self).base_column_pool == old(self).base_column_pool,
            final(channel).steps() == old(channel).steps().push(
                Step::Root(tree.value().commitment.root_s()),
            ),
    {
        let ghost before = self.trees@;
        let ghost items = self.trees.items@;
        channel.mix_root(tree.get().commitment.root());
        self.trees.push(tree);
        assert(self.trees@.drop_last() =~= before);
        assert(self.trees.items@.drop_last() =~= items);
        assert forall|t: int| 0 <= t < self.trees.len() implies (#[trigger] self.trees@[t]).wf() by {
            if t < before.len() {
                assert(before[t].wf());
            }
        }
    }

    /// A builder of the next tree.
    pub fn tree_builder<'s>(&'s mut self) -> (r: TreeBuilder<'s, 'a, H>)
        ensures
            r.tree_index == old(self).trees.len(),
            r.polys.len() == 0,
            *r.commitment_scheme == *old(self),
            *final(self) == *final(r.commitment_scheme),
    {
        TreeBuilder { tree_index: self.trees.len(), commitment_scheme: self, polys: Vec::new() }
    }

    /// The roots of all trees.
    pub fn roots(&self) -> (r: Vec<H::Hash>)
        requires
            self.wf(),
        ensures
            r.len() == self.trees.len(),
            forall|t: int|
                0 <= t < r.len() ==> #[trigger] r@[t] == self.trees@[t].commitment.root_s(),
    {
        let n: usize = self.trees.len();
        let mut r: Vec<H::Hash> = Vec::with_capacity(n);
        for t in 0..n
            invariant
                n == self.trees.len(),
                self.wf(),
                r.len() == t,
                forall|i: int|
                    0 <= i < t ==> #[trigger] r@[i] == self.trees@[i].commitment.root_s(),
        {
            assert(self.trees@[t as int].wf());
            r.push(self.trees.get(t).commitment.root());
        }
        r
    }

    /// The polynomials of all trees.
    pub fn polynomials(&self) -> (r: Vec<Vec<&Poly>>)
        ensures
            refers_to(self.trees@, r@),
    {
        let n: usize = self.trees.len();
        let mut r: Vec<Vec<&Poly>> = Vec::with_capacity(n);
        for t in 0..n
            invariant
                n == self.trees.len(),
                r.len() == t,
                forall|i: int|
                    0 <= i < t ==> (#[trigger] r@[i])@.len() == self.trees@[i].polynomials@.len(),
                forall|i: int, c: int|
                    #![trigger r@[i]@[c]]
                    0 <= i < t && 0 <= c < r@[i]@.len() ==> *r@[i]@[c]
                        == self.trees@[i].polynomials@[c],
        {
            let tree = self.trees.get(t);
            let m: usize = tree.polynomials.len();
            let mut row: Vec<&Poly> = Vec::with_capacity(m);
            for c in 0..m
                invariant
                    m == tree.polynomials.len(),
                    row.len() == c,
                    forall|i: int|
                        0 <= i < c ==> *(#[trigger] row@[i]) == tree.polynomials@[i],
            {
                row.push(&tree.polynomials[c]);
            }
            r.push(row);
        }
        r
    }

    /// The evaluations of all trees.
    pub fn evaluations(&self) -> (r: Vec<Vec<&CircleEvaluation>>)
        ensures
            r.len() == self.trees.len(),
            forall|t: int|
                0 <= t < r.len() ==> (#[trigger] r@[t])@.len() == self.trees@[t].polynomials@.len(),
            forall|t: int, c: int|
                #![trigger r@[t]@[c]]
                0 <= t < r.len() && 0 <= c < r@[t]@.len() ==> *r@[t]@[c]
                    == self.trees@[t].polynomials@[c].evals,
    {
        let n: usize = self.trees.len();
        let mut r: Vec<Vec<&CircleEvaluation>> = Vec::with_capacity(n);
        for t in 0..n
            invariant
                n == self.trees.len(),
                r.len() == t,
                forall|i: int|
                    0 <= i < t ==> (#[trigger] r@[i])@.len() == self.trees@[i].polynomials@.len(),
                forall|i: int, c: int|
                    #![trigger r@[i]@[c]]
                    0 <= i < t && 0 <= c < r@[i]@.len() ==> *r@[i]@[c]
                        == self.trees@[i].polynomials@[c].evals,
        {
            let tree = self.trees.get(t);
            let m: usize = tree.polynomials.len();
            let mut row: Vec<&CircleEvaluation> = Vec::with_capacity(m);
            for c in 0..m
                invariant
                    m == tree.polynomials.len(),
                    row.len() == c,
                    forall|i: int|
                        0 <= i < c ==> *(#[trigger] row@[i]) == tree.polynomials@[i].evals,
            {
                row.push(&tree.polynomials[c].evals);
            }
            r.push(row);
        }
        r
    }

    /// All columns, for reading.
    pub fn trace(&self) -> (r: Trace<'_>)
        ensures
            refers_to(self.trees@, r.polys@),
    {
        Trace { polys: self.polynomials() }
    }
}

/// Collects the columns of the next tree of a scheme.
pub struct TreeBuilder<'s, 'a, H: MerkleHasherLifted> {
    pub tree_index: usize,
    pub commitment_scheme: &'s mut CommitmentSchemeProver<'a, H>,
    pub polys: Vec<EvalsOrCoeffs>,
}

impl<'s, 'a, H: MerkleHasherLifted> TreeBuilder<'s, 'a, H> {
    /// Adds columns given by their values. They are interpolated when the tree is committed.
    pub fn extend_evals(&mut self, columns: Vec<CircleEvaluation>) -> (r: TreeSubspan)
        requires
            old(self).polys.len() + columns.len() <= usize::MAX,
        ensures
            r.tree_index == old(self).tree_index,
            r.col_start == old(self).polys.len(),
            r.col_end == old(self).polys.len() + columns.len(),
            final(self).polys@ == old(self).polys@ + Seq::new(
                columns@.len(),
                |i: int| EvalsOrCoeffs::Evals(columns@[i]),
            ),
            final(self).tree_index == old(self).tree_index,
            final(self).commitment_scheme == old(self).commitment_scheme,
    {
        let col_start: usize = self.polys.len();
        let ghost all = columns@;
        let ghost before = self.polys@;
        for column in iter: columns
            invariant
                iter.seq() == all,
                self.polys@ == before + Seq::new(
                    iter.index() as nat,
                    |i: int| EvalsOrCoeffs::Evals(all[i]),
                ),
                self.tree_index == old(self).tree_index,
                self.commitment_scheme == old(self).commitment_scheme,
        {
            assert(column == all[iter.index() as int]);
            self.polys.push(EvalsOrCoeffs::Evals(column));
            assert(self.polys@ =~= before + Seq::new(
                (iter.index() + 1) as nat,
                |i: int| EvalsOrCoeffs::Evals(all[i]),
            ));
        }
        let col_end: usize = self.polys.len();
        TreeSubspan { tree_index: self.tree_index, col_start, col_end }
    }

    /// Adds columns given by their coefficients.
    pub fn extend_polys(&mut self, columns: Vec<CircleCoefficients>) -> (r: TreeSubspan)
        requires
            old(self).polys.len() + columns.len() <= usize::MAX,
        ensures
            r.tree_index == old(self).tree_index,
            r.col_start == old(self).polys.len(),
            r.col_end == old(self).polys.len() + columns.len(),
            final(self).polys@ == old(self).polys@ + Seq::new(
                columns@.len(),
                |i: int| EvalsOrCoeffs::Coeffs(columns@[i]),
            ),
            final(self).tree_index == old(self).tree_index,
            final(self).commitment_scheme == old(self).commitment_scheme,
    {
        let col_start: usize = self.polys.len();
        let ghost all = columns@;
        let ghost before = self.polys@;
        for column in iter: columns
            invariant
                iter.seq() == all,
                self.polys@ == before + Seq::new(
                    iter.index() as nat,
                    |i: int| EvalsOrCoeffs::Coeffs(all[i]),
                ),
                self.tree_index == old(self).tree_index,
                self.commitment_scheme == old(self).commitment_scheme,
        {
            assert(column == all[iter.index() as int]);
            self.polys.push(EvalsOrCoeffs::Coeffs(column));
            assert(self.polys@ =~= before + Seq::new(
                (iter.index() + 1) as nat,
                |i: int| EvalsOrCoeffs::Coeffs(all[i]),
            ));
        }
        let col_end: usize = self.polys.len();
        TreeSubspan { tree_index: self.tree_index, col_start, col_end }
    }

    /// Commits to the collected columns, unless a salted tree finds no entropy for its seed.
    pub fn commit<C: Channel<H>>(self, channel: &mut C) -> (r: Result<(), EntropyUnavailable>)
        requires
            self.commitment_scheme.wf(),
            self.commitment_scheme.columns_fit(self.polys@),
        ensures
            !old(self.commitment_scheme).salts_next() ==> r is Ok,
            r is Err ==> *final(self.commitment_scheme) == *old(self.commitment_scheme)
                && *final(channel) == *old(channel),
            r is Ok ==> {
                &&& final(self.commitment_scheme).wf()
                &&& old(self.commitment_scheme).grown_by(
                    *final(self.commitment_scheme),
                    final(self.commitment_scheme).trees@.last(),
                )
                &&& old(self.commitment_scheme).is_next_tree(
                    self.polys@,
                    final(self.commitment_scheme).trees@.last(),
                )
                &&& final(self.commitment_scheme).trees.items@.last() is Owned
                &&& final(self.commitment_scheme).base_column_pool.held() == draw_all(
                    old(self.commitment_scheme).base_column_pool.held(),
                    small_columns(self.polys@),
                    old(self.commitment_scheme).config.fri_config.log_blowup_factor as nat,
                )
                &&& final(channel).steps() == old(channel).steps().push(
                    Step::Root(final(self.commitment_scheme).trees@.last().commitment.root_s()),
                )
            },
    {
        let TreeBuilder { tree_index: _, commitment_scheme, polys } = self;
        commitment_scheme.commit(polys, channel)
    }
}

// ---------------------------------------------------------------------------------------------
// Opening.

/// The sizes that a scheme lifts to when it opens: the height of its last tree.
pub open spec fn lifting_of<H: MerkleHasherLifted>(trees: Seq<CommitmentTreeProver<H>>) -> nat {
    trees.last().commitment.height()
}

/// Whether the columns of all trees can be opened at the given points: there are points for each
/// column, no column is larger than the lifted size, and coefficients are there if they are used,
/// or the weights of the points if they are not.
pub open spec fn openable<H: MerkleHasherLifted>(
    trees: Seq<CommitmentTreeProver<H>>,
    polys: Seq<Vec<&Poly>>,
    points: Seq<Vec<Vec<CirclePoint<QM31>>>>,
    by_coeffs: bool,
) -> bool {
    &&& refers_to(trees, polys)
    &&& same_shape(polys, points)
    &&& polys_fit(polys, lifting_of(trees), by_coeffs)
    &&& !by_coeffs ==> weights_defined(polys, points, lifting_of(trees))
}

/// The values of all samples, tree by tree, column by column and point by point.
pub open spec fn column_values_s(samples: Seq<PointSample>) -> Seq<QM31> {
    Seq::new(samples.len(), |i: int| samples[i].value)
}

/// The values of the first `c` columns of a tree.
pub open spec fn tree_values_s(samples: Seq<Vec<PointSample>>, c: int) -> Seq<QM31>
    decreases c,
{
    if c <= 0 {
        Seq::empty()
    } else {
        tree_values_s(samples, c - 1) + column_values_s(samples[c - 1]@)
    }
}

/// The values of the first `t` trees.
pub open spec fn flat_values_s(samples: Seq<Vec<Vec<PointSample>>>, t: int) -> Seq<QM31>
    decreases t,
{
    if t <= 0 {
        Seq::empty()
    } else {
        flat_values_s(samples, t - 1) + tree_values_s(
            samples[t - 1]@,
            samples[t - 1]@.len() as int,
        )
    }
}

/// The values of all samples in one row.
pub fn flatten_values(samples: &Vec<Vec<Vec<PointSample>>>) -> (r: Vec<QM31>)
    ensures
        r@ == flat_values_s(samples@, samples@.len() as int),
{
    let mut r: Vec<QM31> = Vec::new();
    let n: usize = samples.len();
    for t in 0..n
        invariant
            n == samples.len(),
            r@ == flat_values_s(samples@, t as int),
    {
        let tree = &samples[t];
        let m: usize = tree.len();
        let ghost base = r@;
        for c in 0..m
            invariant
                m == tree.len(),
                r@ == base + tree_values_s(tree@, c as int),
        {
            let column = &tree[c];
            let k: usize = column.len();
            let ghost low = r@;
            for i in 0..k
                invariant
                    k == column.len(),
                    r@ == low + column_values_s(column@).take(i as int),
            {
                r.push(column[i].value);
                assert(r@ =~= low + column_values_s(column@).take(i + 1));
            }
            assert(column_values_s(column@).take(k as int) =~= column_values_s(column@));
            assert(r@ =~= base + tree_values_s(tree@, c + 1));
        }
        assert(r@ =~= flat_values_s(samples@, t + 1));
    }
    r
}

/// The samples of an opening, and the challenge drawn after their values were mixed in. What
/// follows is the quotients of the samples and the low-degree test of the quotients.
pub struct OpenedValues<'a, H: MerkleHasherLifted> {
    pub scheme: CommitmentSchemeProver<'a, H>,
    pub samples: Vec<Vec<Vec<PointSample>>>,
    pub random_coeff: QM31,
    pub lifting_log_size: u32,
}

impl<'a, H: MerkleHasherLifted> OpenedValues<'a, H> {
    /// Whether these are the values of a scheme at the given points.
    pub open spec fn opened(
        self,
        scheme: CommitmentSchemeProver<'a, H>,
        points: Seq<Vec<Vec<CirclePoint<QM31>>>>,
    ) -> bool {
        &&& self.scheme == scheme
        &&& self.lifting_log_size == lifting_of(scheme.trees@)
        &&& samples_for(points, self.samples@)
        &&& exists|polys: Seq<Vec<&Poly>>| #[trigger]
            refers_to(scheme.trees@, polys) && self.holds_values_of(polys, points)
    }

    /// Whether every sample is the value of its column, computed as the scheme computes it.
    pub open spec fn holds_values_of(
        self,
        polys: Seq<Vec<&Poly>>,
        points: Seq<Vec<Vec<CirclePoint<QM31>>>>,
    ) -> bool {
        let lifting = lifting_of(self.scheme.trees@);
        forall|place: (usize, usize, usize)|
            #![trigger is_place(points, place)]
            is_place(points, place) ==> value_at(self.samples@, place)
                == if self.scheme.store_polynomials_coefficients {
                coefficient_value(polys, points, lifting, place)
            } else {
                evaluation_value(polys, points, lifting, place)
            }
    }

    /// The transcript once the values were mixed in.
    pub open spec fn mixed_into(self, steps: Seq<Step<H::Hash>>) -> Seq<Step<H::Hash>> {
        steps.push(Step::Felts(flat_values_s(self.samples@, self.samples@.len() as int)))
    }
}

impl<'a, H: MerkleHasherLifted> CommitmentSchemeProver<'a, H> {
    /// The weights of all samples.
    pub fn build_weights_hash_map(
        &self,
        sampled_points: &Vec<Vec<Vec<CirclePoint<QM31>>>>,
        max_log_size: u32,
    ) -> (r: WeightsHashMap)
        requires
            max_log_size <= 31,
            forall|polys: Seq<Vec<&Poly>>|
                refers_to(self.trees@, polys) ==> #[trigger] same_shape(polys, sampled_points@)
                    && polys_fit(polys, max_log_size as nat, false) && weights_defined(
                    polys,
                    sampled_points@,
                    max_log_size as nat,
                ),
        ensures
            r.all_are(key_column(false)),
            exists|polys: Seq<Vec<&Poly>>| #[trigger]
                refers_to(self.trees@, polys) && map_covers(
                    r,
                    polys,
                    sampled_points@,
                    max_log_size as nat,
                    false,
                    None,
                    (polys.len() as int, 0, 0),
                ),
    {
        self.build_weights_hash_map_below(sampled_points, max_log_size, None)
    }

    /// The weights of the samples of columns below a size limit.
    pub fn build_weights_hash_map_below(
        &self,
        sampled_points: &Vec<Vec<Vec<CirclePoint<QM31>>>>,
        max_log_size: u32,
        exclusive_log_limit: Option<u32>,
    ) -> (r: WeightsHashMap)
        requires
            max_log_size <= 31,
            forall|polys: Seq<Vec<&Poly>>|
                refers_to(self.trees@, polys) ==> #[trigger] same_shape(polys, sampled_points@)
                    && polys_fit(polys, max_log_size as nat, false) && weights_defined(
                    polys,
                    sampled_points@,
                    max_log_size as nat,
                ),
        ensures
            r.all_are(key_column(false)),
            exists|polys: Seq<Vec<&Poly>>| #[trigger]
                refers_to(self.trees@, polys) && map_covers(
                    r,
                    polys,
                    sampled_points@,
                    max_log_size as nat,
                    false,
                    exclusive_log_limit,
                    (polys.len() as int, 0, 0),
                ),
    {
        let polys = self.polynomials();
        assert(same_shape(polys@, sampled_points@));
        build_map(&polys, sampled_points, max_log_size, false, exclusive_log_limit)
    }

    /// The basis columns of the samples of columns with coefficients.
    pub fn build_eval_basis_map(
        &self,
        sampled_points: &Vec<Vec<Vec<CirclePoint<QM31>>>>,
        max_log_size: u32,
    ) -> (r: WeightsHashMap)
        requires
            self.wf(),
            max_log_size <= 31,
            forall|polys: Seq<Vec<&Poly>>|
                refers_to(self.trees@, polys) ==> #[trigger] same_shape(polys, sampled_points@)
                    && polys_fit(polys, max_log_size as nat, false),
        ensures
            r.all_are(key_column(true)),
            exists|polys: Seq<Vec<&Poly>>| #[trigger]
                refers_to(self.trees@, polys) && map_covers(
                    r,
                    polys,
                    sampled_points@,
                    max_log_size as nat,
                    true,
                    None,
                    (polys.len() as int, 0, 0),
                ),
    {
        let polys = self.polynomials();
        assert(same_shape(polys@, sampled_points@));
        assert forall|t: int, c: int|
            0 <= t < polys.len() && 0 <= c < polys@[t].len() && (
            #[trigger] polys@[t]@[c]).coeffs is Some implies polys@[t]@[c].coeffs->0.wf() by {
            assert(self.trees@[t].wf());
            assert(poly_in_tree(
                self.trees@[t].polynomials@[c],
                self.trees@[t].commitment.height(),
            ));
        }
        build_map(&polys, sampled_points, max_log_size, true, None)
    }

    /// Whether all columns can be opened at the given points.
    pub open spec fn can_open(self, points: Seq<Vec<Vec<CirclePoint<QM31>>>>) -> bool {
        forall|polys: Seq<Vec<&Poly>>|
            refers_to(self.trees@, polys) ==> #[trigger] openable(
                self.trees@,
                polys,
                points,
                self.store_polynomials_coefficients,
            )
    }

    /// Evaluates all columns at their sampled points, mixes the values into the transcript, and
    /// draws the challenge that combines the quotients.
    pub fn prove_values<C: Channel<H>>(
        self,
        sampled_points: &Vec<Vec<Vec<CirclePoint<QM31>>>>,
        channel: &mut C,
    ) -> (r: OpenedValues<'a, H>)
        requires
            self.wf(),
            self.trees.len() > 0,
            self.can_open(sampled_points@),
        ensures
            r.opened(self, sampled_points@),
            r.random_coeff == C::drawn_after(r.mixed_into(old(channel).steps())),
            final(channel).steps() == r.mixed_into(old(channel).steps()).push(
                Step::Drawn(r.random_coeff),
            ),
    {
        let last: usize = self.trees.len() - 1;
        assert(self.trees@[last as int].wf());
        let lifting_log_size: u32 = (self.trees.get(last).commitment.layers.len() - 1) as u32;
        let ghost lg = lifting_log_size as nat;
        let by_coeffs: bool = self.store_polynomials_coefficients;
        let ghost all: Seq<Vec<&Poly>>;
        let samples = {
            let polys = self.polynomials();
            proof {
                all = polys@;
            }
            assert(openable(self.trees@, polys@, sampled_points@, by_coeffs));
            let samples = if by_coeffs {
                proof {
                    assert forall|t: int, c: int|
                        0 <= t < polys@.len() && 0 <= c < polys@[t].len() implies
                    super::samples::poly_fits(*(#[trigger] polys@[t]@[c]), lg, false) by {
                        assert(super::samples::poly_fits(*polys@[t]@[c], lg, true));
                    }
                    assert forall|t: int, c: int|
                        0 <= t < polys.len() && 0 <= c < polys@[t].len() && (
                        #[trigger] polys@[t]@[c]).coeffs is Some implies polys@[t]@[c].coeffs->0.wf() by {
                        assert(super::samples::poly_fits(*polys@[t]@[c], lg, true));
                    }
                }
                let basis_map = build_map(
                    &polys,
                    sampled_points,
                    lifting_log_size,
                    true,
                    None,
                );
                proof {
                    assert forall|place: (usize, usize, usize)|
                        #![trigger is_place(sampled_points@, place)]
                        is_place(sampled_points@, place) implies basis_map.has(
                        place_key(polys@, sampled_points@, lg, true, place),
                    ) by {
                        assert(precedes(place, (polys@.len() as int, 0, 0)));
                        assert(polys@[place.0 as int].len() == sampled_points@[place.0 as int].len());
                        assert(super::samples::poly_fits(
                            *polys@[place.0 as int]@[place.1 as int],
                            lg,
                            true,
                        ));
                    }
                }
                batched_coefficient_samples(&polys, sampled_points, &basis_map, lifting_log_size)
            } else {
                let weights_map = build_map(
                    &polys,
                    sampled_points,
                    lifting_log_size,
                    false,
                    None,
                );
                batch_evaluation_samples(
                    &polys,
                    sampled_points,
                    Some(&weights_map),
                    lifting_log_size,
                )
            };
            assert(refers_to(self.trees@, polys@));
            samples
        };
        let values = flatten_values(&samples);
        channel.mix_felts(values.as_slice());
        let random_coeff = channel.draw_secure_felt();
        let r = OpenedValues { scheme: self, samples, random_coeff, lifting_log_size };
        assert(refers_to(r.scheme.trees@, all) && r.holds_values_of(all, sampled_points@));
        r
    }
}

} // verus!
