//! The end of an opening: the rows that the low-degree test asks for, in every tree.

use vstd::arithmetic::power2::{lemma2_to64, lemma_pow2_adds, lemma_pow2_pos, pow2};
use vstd::prelude::*;

use super::channel::{Channel, Step};
use super::config::PcsConfig;
use super::samples::PointSample;
use super::scheme::{lifting_of, OpenedValues};
use super::tree::{poly_in_tree, CommitmentTreeProver};
use super::trees::MaybeOwned;
use crate::fields::m31::M31;
use crate::fields::qm31::QM31;
use crate::poly::circle_poly::Poly;
use crate::poly::pool::BaseColumnPool;
use crate::utils::{
    lemma_lifted_row, lemma_pow2_bound, lemma_pow2_double, lemma_pow2_le, lifted_row, pow2_usize,
};
use crate::vcs::hasher::MerkleHasherLifted;
use crate::vcs::merkle::lifted_value;
use crate::vcs::opening::{deduped_s, sorted_below, witness_from};
use crate::vcs::prover::MerkleDecommitmentLifted;
use crate::vcs::zk::salt_s;

verus! {

/// The row of a tree of another height that a row of the lifted size stands for.
pub open spec fn matching_row(row: int, lifting: nat, height: nat) -> int {
    if height <= lifting {
        lifted_row(row, (lifting - height) as nat)
    } else {
        (row / 2) * (2 * pow2((height - lifting) as nat)) + row % 2
    }
}

/// The rows of a tree of another height that rows of the lifted size stand for.
pub open spec fn matching_rows(rows: Seq<usize>, lifting: nat, height: nat) -> Seq<usize> {
    rows.map_values(|p: usize| matching_row(p as int, lifting, height) as usize)
}

/// A row of a larger tree lifts to the row it stands for.
pub proof fn lemma_matching_row(row: int, lifting: nat, height: nat)
    requires
        lifting <= height,
        0 <= row,
    ensures
        lifted_row(matching_row(row, lifting, height), (height - lifting) as nat) == row,
{
    let p = 2 * pow2((height - lifting) as nat) as int;
    lemma_pow2_pos((height - lifting) as nat);
    if height == lifting {
        crate::utils::lemma_lifted_none(row);
    } else {
        let q = row / 2;
        let b = row % 2;
        lemma_pow2_double((height - lifting) as nat);
        let x = q * p + b;
        vstd::arithmetic::div_mod::lemma_fundamental_div_mod_converse(x, p, q, b);
        let half = pow2((height - lifting) as nat) as int;
        assert(q * p == 2 * (q * half)) by (nonlinear_arith)
            requires
                p == 2 * half,
        ;
        assert(x % 2 == b);
    }
}

/// In a tree of another height, the row that a row stands for shows of every column what the row
/// itself would: the row of the column that both lift to.
pub proof fn lemma_matching_row_shows(row: int, lifting: nat, height: nat, log_size: nat)
    requires
        0 <= row,
        log_size <= lifting,
        log_size <= height,
    ensures
        lifted_row(matching_row(row, lifting, height), (height - log_size) as nat) == lifted_row(
            row,
            (lifting - log_size) as nat,
        ),
{
    if height <= lifting {
        crate::utils::lemma_lifted_twice(
            row,
            (lifting - height) as nat,
            (height - log_size) as nat,
        );
    } else {
        let m = matching_row(row, lifting, height);
        lemma_matching_row(row, lifting, height);
        assert(m >= 0) by {
            lemma_pow2_pos((height - lifting) as nat);
            assert((row / 2) * (2 * pow2((height - lifting) as nat)) >= 0) by (nonlinear_arith)
                requires
                    row >= 0,
                    pow2((height - lifting) as nat) >= 0,
            ;
        }
        crate::utils::lemma_lifted_twice(
            m,
            (height - lifting) as nat,
            (lifting - log_size) as nat,
        );
    }
}

proof fn lemma_matching_below(row: int, lifting: nat, height: nat)
    requires
        1 <= lifting <= 30,
        1 <= height <= 30,
        0 <= row < pow2(lifting),
    ensures
        0 <= matching_row(row, lifting, height) < pow2(height),
{
    if height <= lifting {
        lemma_lifted_row(row, lifting, height);
    } else {
        let r = (height - lifting) as nat;
        lemma_pow2_double(lifting);
        lemma_pow2_adds(r, lifting);
        lemma_pow2_pos(r);
        let q = row / 2;
        let h = pow2((lifting - 1) as nat) as int;
        let p = 2 * pow2(r) as int;
        assert(q * p + p <= h * p) by (nonlinear_arith)
            requires
                q + 1 <= h,
                p >= 0,
        ;
        assert(h * p == pow2(height)) by (nonlinear_arith)
            requires
                p == 2 * pow2(r),
                pow2(lifting) == 2 * h,
                pow2(r) * pow2(lifting) == pow2(height),
        ;
        assert(q * p >= 0) by (nonlinear_arith)
            requires
                q >= 0,
                p >= 0,
        ;
        lemma_pow2_double(r + 1);
    }
}

/// Whether positions do not decrease.
pub open spec fn ordered(qs: Seq<usize>) -> bool {
    forall|i: int, j: int| 0 <= i <= j < qs.len() ==> #[trigger] qs[i] <= #[trigger] qs[j]
}

/// Sorts positions, moving each into its place among those before it.
pub fn sort_positions(positions: &Vec<usize>) -> (r: Vec<usize>)
    ensures
        ordered(r@),
        r@.to_multiset() == positions@.to_multiset(),
{
    let n: usize = positions.len();
    let mut r: Vec<usize> = Vec::with_capacity(n);
    assert(positions@.take(0) =~= r@);
    for k in 0..n
        invariant
            n == positions.len(),
            ordered(r@),
            r@.to_multiset() == positions@.take(k as int).to_multiset(),
    {
        let p: usize = positions[k];
        let ghost before = r@;
        let mut at: usize = r.len();
        while at > 0 && p < r[at - 1]
            invariant
                at <= r.len(),
                r@ == before,
                ordered(before),
                forall|i: int| at <= i < before.len() ==> p < #[trigger] before[i],
            decreases at,
        {
            at = at - 1;
        }
        r.insert(at, p);
        proof {
            assert(r@ == before.insert(at as int, p));
            vstd::seq_lib::to_multiset_insert(before, at as int, p);
            vstd::seq_lib::to_multiset_build(positions@.take(k as int), p);
            assert(positions@.take(k + 1) =~= positions@.take(k as int).push(p));
            assert forall|i: int, j: int| 0 <= i <= j < r@.len() implies #[trigger] r@[i]
                <= #[trigger] r@[j] by {
                let a = if i < at {
                    i
                } else {
                    i - 1
                };
                let b = if j < at {
                    j
                } else {
                    j - 1
                };
                if i != at && j != at {
                    assert(before[a] <= before[b]);
                } else if i == at && j > at {
                    assert(p < before[j - 1]);
                } else if j == at && i < at {
                    assert(before[i] <= before[at - 1]);
                }
            }
        }
    }
    assert(positions@.take(n as int) =~= positions@);
    r
}

/// The rows of a tree that stand for rows of the lifted size. A tree of one leaf has none.
pub fn prepare_preprocessed_query_positions(
    query_positions: &Vec<usize>,
    lifting_log_size: u32,
    preprocessed_log_size: u32,
) -> (r: Vec<usize>)
    requires
        1 <= lifting_log_size <= 30,
        preprocessed_log_size <= 30,
        forall|k: int|
            0 <= k < query_positions.len() ==> #[trigger] query_positions@[k] < pow2(
                lifting_log_size as nat,
            ),
    ensures
        preprocessed_log_size == 0 ==> r.len() == 0,
        preprocessed_log_size > 0 ==> ordered(r@) && r@.to_multiset() == matching_rows(
            query_positions@,
            lifting_log_size as nat,
            preprocessed_log_size as nat,
        ).to_multiset(),
        sorted_below(r@, pow2(preprocessed_log_size as nat) as int),
{
    if preprocessed_log_size == 0 {
        return Vec::new();
    }
    let ghost lg = lifting_log_size as nat;
    let ghost h = preprocessed_log_size as nat;
    let n: usize = query_positions.len();
    let ghost want = matching_rows(query_positions@, lg, h);
    let shrink: bool = preprocessed_log_size <= lifting_log_size;
    let ratio: u32 = if shrink {
        lifting_log_size - preprocessed_log_size
    } else {
        preprocessed_log_size - lifting_log_size
    };
    proof {
        lemma_pow2_le(ratio as nat, 29);
        lemma2_to64();
        lemma_pow2_pos(ratio as nat);
    }
    let step: usize = 2 * pow2_usize(ratio);
    let mut rows: Vec<usize> = Vec::with_capacity(n);
    for k in 0..n
        invariant
            n == query_positions.len(),
            1 <= lifting_log_size <= 30,
            1 <= preprocessed_log_size <= 30,
            lg == lifting_log_size,
            h == preprocessed_log_size,
            shrink == (h <= lg),
            shrink ==> ratio == lg - h,
            !shrink ==> ratio == h - lg,
            step == 2 * pow2(ratio as nat),
            step > 0,
            forall|i: int|
                0 <= i < query_positions.len() ==> #[trigger] query_positions@[i] < pow2(lg),
            want == query_positions@.map_values(
                |p: usize| matching_row(p as int, lg, h) as usize,
            ),
            rows@ == want.take(k as int),
            forall|i: int| 0 <= i < rows.len() ==> #[trigger] rows@[i] < pow2(h),
    {
        let p: usize = query_positions[k];
        proof {
            assert(query_positions@[k as int] < pow2(lg));
            lemma_matching_below(p as int, lg, h);
            lemma_pow2_bound(h);
            if !shrink {
                let q = p as int / 2;
                assert(q * step >= 0) by (nonlinear_arith)
                    requires
                        q >= 0,
                        step >= 0,
                ;
                assert(matching_row(p as int, lg, h) == q * step + p as int % 2);
            }
        }
        let row: usize = if shrink {
            2 * (p / step) + p % 2
        } else {
            (p / 2) * step + p % 2
        };
        rows.push(row);
        assert(rows@ =~= want.take(k + 1));
    }
    assert(want.take(n as int) =~= want);
    let r = sort_positions(&rows);
    proof {
        r@.to_multiset_ensures();
        rows@.to_multiset_ensures();
        assert forall|i: int| 0 <= i < r@.len() implies (#[trigger] r@[i]) < pow2(h) by {
            assert(r@.contains(r@[i]));
            assert(rows@.to_multiset().count(r@[i]) > 0);
            assert(rows@.contains(r@[i]));
            let j = choose|j: int| 0 <= j < rows@.len() && rows@[j] == r@[i];
            assert(rows@[j] < pow2(h));
        }
    }
    r
}

/// What the low-degree test came to: the rows to open, in order and as they were drawn, and the
/// rest of its proof.
pub struct FriOutcome<T, A> {
    pub query_positions: Vec<usize>,
    pub unsorted_query_locations: Vec<usize>,
    pub fri_proof: T,
    pub fri_aux: A,
}

/// A proof of the values of committed columns.
pub struct CommitmentSchemeProof<H: MerkleHasherLifted, T> {
    pub config: PcsConfig,
    pub commitments: Vec<H::Hash>,
    pub sampled_values: Vec<Vec<Vec<QM31>>>,
    pub decommitments: Vec<MerkleDecommitmentLifted<H>>,
    pub queried_values: Vec<Vec<Vec<M31>>>,
    pub proof_of_work: u64,
    pub fri_proof: T,
}

/// What a prover knows beside the proof: the rows as they were drawn, and what the low-degree test
/// adds.
pub struct CommitmentSchemeProofAux<A> {
    pub unsorted_query_locations: Vec<usize>,
    pub fri: A,
}

/// A proof, and what its prover knows beside it.
pub struct ExtendedCommitmentSchemeProof<H: MerkleHasherLifted, T, A> {
    pub proof: CommitmentSchemeProof<H, T>,
    pub aux: CommitmentSchemeProofAux<A>,
}

/// The values of samples, in their shape.
pub open spec fn values_shaped(
    samples: Seq<Vec<Vec<PointSample>>>,
    values: Seq<Vec<Vec<QM31>>>,
) -> bool {
    &&& values.len() == samples.len()
    &&& forall|t: int| 0 <= t < samples.len() ==> (#[trigger] values[t])@.len() == samples[t]@.len()
    &&& forall|t: int, c: int|
        #![trigger values[t]@[c]]
        0 <= t < samples.len() && 0 <= c < samples[t]@.len() ==> values[t]@[c]@
            == super::scheme::column_values_s(samples[t]@[c]@)
}

fn shaped_values(samples: &Vec<Vec<Vec<PointSample>>>) -> (r: Vec<Vec<Vec<QM31>>>)
    ensures
        values_shaped(samples@, r@),
{
    let n: usize = samples.len();
    let mut r: Vec<Vec<Vec<QM31>>> = Vec::with_capacity(n);
    for t in 0..n
        invariant
            n == samples.len(),
            r.len() == t,
            forall|i: int| 0 <= i < t ==> (#[trigger] r@[i])@.len() == samples@[i]@.len(),
            forall|i: int, c: int|
                #![trigger r@[i]@[c]]
                0 <= i < t && 0 <= c < samples@[i]@.len() ==> r@[i]@[c]@
                    == super::scheme::column_values_s(samples@[i]@[c]@),
    {
        let tree = &samples[t];
        let m: usize = tree.len();
        let mut row: Vec<Vec<QM31>> = Vec::with_capacity(m);
        for c in 0..m
            invariant
                m == tree.len(),
                row.len() == c,
                forall|i: int|
                    0 <= i < c ==> (#[trigger] row@[i])@ == super::scheme::column_values_s(
                        tree@[i]@,
                    ),
        {
            let column = &tree[c];
            let k: usize = column.len();
            let mut values: Vec<QM31> = Vec::with_capacity(k);
            for i in 0..k
                invariant
                    k == column.len(),
                    values@ == super::scheme::column_values_s(column@).take(i as int),
            {
                values.push(column[i].value);
                assert(values@ =~= super::scheme::column_values_s(column@).take(i + 1));
            }
            assert(values@ =~= super::scheme::column_values_s(column@));
            row.push(values);
        }
        r.push(row);
    }
    r
}

/// `values` and `opening` open a tree at the given rows.
pub open spec fn opens<H: MerkleHasherLifted>(
    tree: CommitmentTreeProver<H>,
    queries: Seq<usize>,
    values: Seq<Vec<M31>>,
    opening: MerkleDecommitmentLifted<H>,
) -> bool {
    &&& values.len() == tree.polynomials@.len()
    &&& forall|c: int|
        0 <= c < values.len() ==> (#[trigger] values[c])@ == Seq::new(
            queries.len(),
            |q: int|
                lifted_value(
                    tree.polynomials@[c].evals.values@,
                    queries[q] as int,
                    tree.commitment.height(),
                ),
        )
    &&& opening.hash_witness@ == witness_from::<H>(
        tree.commitment.leaves(),
        deduped_s(queries),
        0,
        tree.commitment.height(),
    )
    &&& opening.salts@ == match tree.commitment.salt_seed {
        Some(seed) => Seq::new(
            deduped_s(queries).len(),
            |k: int| salt_s::<H>(seed, deduped_s(queries)[k] as int),
        ),
        None => Seq::empty(),
    }
}

/// The buffers of a pool after those of the first `n` polynomials were given back.
pub open spec fn given_back(held: Seq<nat>, polys: Seq<Poly>, n: int) -> Seq<nat>
    decreases n,
{
    if n <= 0 {
        held
    } else {
        let before = given_back(held, polys, n - 1);
        let k = polys[n - 1].evals.domain.log_size_s() as int;
        before.update(k, before[k] + 1)
    }
}

/// The buffers of a pool after those of the first `n` trees were given back. The buffers of a tree
/// that was lent stay with it.
pub open spec fn all_given_back<'a, H: MerkleHasherLifted>(
    held: Seq<nat>,
    trees: Seq<MaybeOwned<'a, CommitmentTreeProver<H>>>,
    n: int,
) -> Seq<nat>
    decreases n,
{
    if n <= 0 {
        held
    } else {
        let before = all_given_back(held, trees, n - 1);
        match trees[n - 1] {
            MaybeOwned::Owned(tree) => given_back(
                before,
                tree.polynomials@,
                tree.polynomials@.len() as int,
            ),
            MaybeOwned::Borrowed(_) => before,
        }
    }
}

fn give_back_tree(polynomials: Vec<Poly>, pool: &mut BaseColumnPool)
    requires
        old(pool).wf(),
        forall|k: int|
            0 <= k < polynomials.len() ==> poly_in_tree(#[trigger] polynomials@[k], 30),
    ensures
        final(pool).wf(),
        final(pool).held() == given_back(
            old(pool).held(),
            polynomials@,
            polynomials@.len() as int,
        ),
{
    let ghost all = polynomials@;
    let ghost before = pool.held();
    for poly in iter: polynomials
        invariant
            iter.seq() == all,
            forall|k: int| 0 <= k < all.len() ==> poly_in_tree(#[trigger] all[k], 30),
            pool.wf(),
            pool.held() == given_back(before, all, iter.index() as int),
    {
        assert(poly == all[iter.index() as int]);
        assert(poly_in_tree(all[iter.index() as int], 30));
        let log_size: u32 = poly.evals.domain.log_size();
        pool.give_back(log_size, poly.evals.values);
    }
}

impl<'a, H: MerkleHasherLifted> OpenedValues<'a, H> {
    /// Whether the rows can be opened: in order, below the lifted size, and that size the height
    /// of every tree but the first.
    pub open spec fn can_finish(self, queries: Seq<usize>) -> bool {
        &&& self.scheme.wf()
        &&& self.scheme.trees.len() > 0
        &&& self.lifting_log_size == lifting_of(self.scheme.trees@)
        &&& self.lifting_log_size >= 1
        &&& sorted_below(queries, pow2(self.lifting_log_size as nat) as int)
        &&& forall|t: int|
            1 <= t < self.scheme.trees.len() ==> (
            #[trigger] self.scheme.trees@[t]).commitment.height() == self.lifting_log_size
    }

    /// Mixes the proof of work into the transcript, before the rows are drawn that it stands for.
    pub fn mix_proof_of_work<C: Channel<H>>(self, channel: &mut C, proof_of_work: u64) -> (r:
        GroundValues<'a, H>)
        ensures
            r.opened == self,
            r.proof_of_work == proof_of_work,
            final(channel).steps() == old(channel).steps().push(Step::Number(proof_of_work)),
    {
        channel.mix_u64(proof_of_work);
        GroundValues { opened: self, proof_of_work }
    }
}

/// The samples of an opening with the proof of work that has been mixed into the transcript. What
/// follows are the rows that the low-degree test asks for.
pub struct GroundValues<'a, H: MerkleHasherLifted> {
    pub opened: OpenedValues<'a, H>,
    pub proof_of_work: u64,
}

impl<'a, H: MerkleHasherLifted> GroundValues<'a, H> {
    /// Whether rows are those of the first tree that the given rows stand for, in order.
    pub open spec fn asks_first(self, queries: Seq<usize>, first: Seq<usize>) -> bool {
        let height = self.opened.scheme.trees@[0].commitment.height();
        if height == 0 {
            first.len() == 0
        } else {
            ordered(first) && first.to_multiset() == matching_rows(
                queries,
                self.opened.lifting_log_size as nat,
                height,
            ).to_multiset()
        }
    }

    /// Whether a proof is the one of these values with the given outcome of the low-degree test.
    pub open spec fn proves<T, A>(
        self,
        outcome: FriOutcome<T, A>,
        r: CommitmentSchemeProof<H, T>,
    ) -> bool {
        let trees = self.opened.scheme.trees@;
        &&& r.config == self.opened.scheme.config
        &&& r.proof_of_work == self.proof_of_work
        &&& r.fri_proof == outcome.fri_proof
        &&& values_shaped(self.opened.samples@, r.sampled_values@)
        &&& r.commitments.len() == trees.len()
        &&& forall|t: int|
            0 <= t < r.commitments.len() ==> #[trigger] r.commitments@[t]
                == trees[t].commitment.root_s()
        &&& r.decommitments.len() == trees.len()
        &&& r.queried_values.len() == trees.len()
        &&& forall|t: int|
            1 <= t < trees.len() ==> opens(
                trees[t],
                outcome.query_positions@,
                #[trigger] r.queried_values@[t]@,
                r.decommitments@[t],
            )
        &&& exists|first: Seq<usize>| #[trigger]
            opens(trees[0], first, r.queried_values@[0]@, r.decommitments@[0])
                && self.asks_first(outcome.query_positions@, first)
    }

    /// Opens every tree at the rows that the low-degree test asks for, and gives the buffers of
    /// the columns back to the pool.
    pub fn finish<T, A>(self, outcome: FriOutcome<T, A>) -> (r: (
        ExtendedCommitmentSchemeProof<H, T, A>,
        BaseColumnPool,
    ))
        requires
            self.opened.can_finish(outcome.query_positions@),
        ensures
            self.proves(outcome, r.0.proof),
            r.0.aux.unsorted_query_locations == outcome.unsorted_query_locations,
            r.0.aux.fri == outcome.fri_aux,
            r.1.wf(),
            r.1.held() == all_given_back(
                self.opened.scheme.base_column_pool.held(),
                self.opened.scheme.trees.items@,
                self.opened.scheme.trees@.len() as int,
            ),
    {
        let ghost whole = self;
        assert(self.opened.scheme.trees@[0].wf());
        assert(self.opened.scheme.trees@.last().wf());
        let first_log: u32 = (self.opened.scheme.trees.get(0).commitment.layers.len() - 1) as u32;
        let first = prepare_preprocessed_query_positions(
            &outcome.query_positions,
            self.opened.lifting_log_size,
            first_log,
        );
        let commitments = self.opened.scheme.roots();
        let sampled_values = shaped_values(&self.opened.samples);
        let n: usize = self.opened.scheme.trees.len();
        let mut queried_values: Vec<Vec<Vec<M31>>> = Vec::with_capacity(n);
        let mut decommitments: Vec<MerkleDecommitmentLifted<H>> = Vec::with_capacity(n);
        for t in 0..n
            invariant
                n == self.opened.scheme.trees.len(),
                self.opened.can_finish(outcome.query_positions@),
                self.opened.scheme.trees@[0].wf(),
                first_log == self.opened.scheme.trees@[0].commitment.height(),
                sorted_below(first@, pow2(first_log as nat) as int),
                queried_values.len() == t,
                decommitments.len() == t,
                forall|i: int|
                    1 <= i < t ==> opens(
                        self.opened.scheme.trees@[i],
                        outcome.query_positions@,
                        #[trigger] queried_values@[i]@,
                        decommitments@[i],
                    ),
                t > 0 ==> opens(
                    self.opened.scheme.trees@[0],
                    first@,
                    queried_values@[0]@,
                    decommitments@[0],
                ),
        {
            assert(self.opened.scheme.trees@[t as int].wf());
            let (values, opening) = if t == 0 {
                self.opened.scheme.trees.get(t).decommit(first.as_slice())
            } else {
                self.opened.scheme.trees.get(t).decommit(outcome.query_positions.as_slice())
            };
            queried_values.push(values);
            decommitments.push(opening);
        }
        let config = self.opened.scheme.config;
        let proof_of_work = self.proof_of_work;
        let mut pool = self.opened.scheme.base_column_pool;
        let ghost held = pool.held();
        let ghost trees = self.opened.scheme.trees@;
        let ghost all = self.opened.scheme.trees.items@;
        for item in iter: self.opened.scheme.trees.items
            invariant
                iter.seq() == all,
                trees.len() == all.len(),
                forall|t: int| 0 <= t < all.len() ==> trees[t] == (#[trigger] all[t]).value(),
                forall|t: int| 0 <= t < trees.len() ==> (#[trigger] trees[t]).wf(),
                pool.wf(),
                pool.held() == all_given_back(held, all, iter.index() as int),
        {
            let ghost t = iter.index() as int;
            assert(item == all[t]);
            assert(trees[t].wf());
            match item {
                MaybeOwned::Owned(tree) => {
                    proof {
                        assert(tree == trees[t]);
                        assert forall|k: int| 0 <= k < tree.polynomials.len() implies poly_in_tree(
                            #[trigger] tree.polynomials@[k],
                            30,
                        ) by {
                            assert(poly_in_tree(tree.polynomials@[k], tree.commitment.height()));
                        }
                    }
                    give_back_tree(tree.polynomials, &mut pool);
                },
                MaybeOwned::Borrowed(_) => {},
            }
        }
        let proof_out = CommitmentSchemeProof {
            config,
            commitments,
            sampled_values,
            decommitments,
            queried_values,
            proof_of_work,
            fri_proof: outcome.fri_proof,
        };
        proof {
            assert(opens(
                whole.opened.scheme.trees@[0],
                first@,
                proof_out.queried_values@[0]@,
                proof_out.decommitments@[0],
            ) && whole.asks_first(outcome.query_positions@, first@));
        }
        let aux = CommitmentSchemeProofAux {
            unsorted_query_locations: outcome.unsorted_query_locations,
            fri: outcome.fri_aux,
        };
        (ExtendedCommitmentSchemeProof { proof: proof_out, aux }, pool)
    }
}

} // verus!
