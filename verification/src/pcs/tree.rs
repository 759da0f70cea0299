//! One committed tree of a commitment scheme.

use vstd::prelude::*;

use crate::fields::m31::M31;
use crate::poly::circle_poly::{EvalsOrCoeffs, Poly};
use crate::poly::domain::lemma_canonic_domain_wf;
use crate::poly::extension::{
    committed, draw_all, interpolate_and_evaluate_polynomials, small_columns,
};
use crate::poly::pool::BaseColumnPool;
use crate::poly::twiddles::TwiddleTree;
use crate::utils::{is_pow2, lemma_log_of, log_of};
use crate::vcs::contents::{lemma_same_leaves, same_contents};
use crate::vcs::hasher::MerkleHasherLifted;
use crate::vcs::merkle::lifted_value;
use crate::vcs::opening::{deduped_s, sorted_below, witness_from};
use crate::vcs::prover::{tree_height, tree_leaves, MerkleDecommitmentLifted, MerkleProverLifted};
use crate::vcs::zk::{salt_s, SaltSeed};

verus! {

/// The evaluations of all polynomials.
pub open spec fn values_of<'a>(polys: Seq<Poly>) -> Seq<&'a Vec<M31>> {
    Seq::new(polys.len(), |k: int| &polys[k].evals.values)
}

/// The columns of a tree, extended, and the tree over them.
pub struct CommitmentTreeProver<H: MerkleHasherLifted> {
    pub polynomials: Vec<Poly>,
    pub commitment: MerkleProverLifted<H>,
}

/// Whether a polynomial stands on a domain of a tree of the given height.
pub open spec fn poly_in_tree(poly: Poly, height: nat) -> bool {
    &&& poly.evals.wf()
    &&& 1 <= poly.evals.domain.log_size_s() <= height
    &&& poly.coeffs is Some ==> poly.coeffs->0.wf()
}

/// The largest size among the first `n` polynomials, as a logarithm.
pub open spec fn largest_log(polys: Seq<Poly>, n: int) -> nat
    decreases n,
{
    if n <= 0 {
        0
    } else if polys[n - 1].evals.domain.log_size_s() > largest_log(polys, n - 1) {
        polys[n - 1].evals.domain.log_size_s()
    } else {
        largest_log(polys, n - 1)
    }
}

/// The height of a tree: the lifted size if one is given, or that of its largest column.
pub open spec fn lifted_height(polys: Seq<Poly>, lifting_log_size: Option<u32>) -> nat {
    match lifting_log_size {
        Some(log_size) => log_size as nat,
        None => largest_log(polys, polys.len() as int),
    }
}

proof fn lemma_largest_log(polys: Seq<Poly>, n: int, k: int)
    requires
        0 <= k < n <= polys.len(),
    ensures
        polys[k].evals.domain.log_size_s() <= largest_log(polys, n),
    decreases n,
{
    if k < n - 1 {
        lemma_largest_log(polys, n - 1, k);
    }
}

impl<H: MerkleHasherLifted> CommitmentTreeProver<H> {
    pub open spec fn wf(self) -> bool {
        &&& self.commitment.wf()
        &&& forall|k: int|
            0 <= k < self.polynomials.len() ==> poly_in_tree(
                #[trigger] self.polynomials@[k],
                self.commitment.height(),
            )
        &&& self.commitment.commits(
            values_of(self.polynomials@),
            self.commitment.height(),
            self.commitment.salt_seed,
        )
    }

    /// Extends columns and commits to them.
    pub fn new(
        columns: Vec<EvalsOrCoeffs>,
        log_blowup_factor: u32,
        twiddles: &TwiddleTree,
        store_polynomials_coefficients: bool,
        lifting_log_size: Option<u32>,
        salt_seed: Option<SaltSeed>,
        base_column_pool: &mut BaseColumnPool,
    ) -> (r: Self)
        requires
            twiddles.wf(),
            old(base_column_pool).wf(),
            forall|i: int|
                0 <= i < columns.len() ==> (#[trigger] columns@[i]).fits(
                    twiddles.root_coset,
                    log_blowup_factor as nat,
                ),
            lifting_log_size is Some ==> lifting_log_size->0 <= 30,
            lifting_log_size is Some ==> forall|i: int|
                0 <= i < columns.len() ==> (#[trigger] columns@[i]).log_size_s()
                    + log_blowup_factor <= lifting_log_size->0,
        ensures
            r.wf(),
            r.polynomials.len() == columns.len(),
            forall|i: int|
                0 <= i < columns.len() ==> committed(
                    columns@[i],
                    log_blowup_factor as nat,
                    store_polynomials_coefficients,
                    #[trigger] r.polynomials@[i],
                ),
            r.commitment.salt_seed == salt_seed,
            r.commitment.height() == if columns.len() == 0 {
                0
            } else {
                lifted_height(r.polynomials@, lifting_log_size)
            },
            final(base_column_pool).wf(),
            final(base_column_pool).held() == draw_all(
                old(base_column_pool).held(),
                small_columns(columns@),
                log_blowup_factor as nat,
            ),
    {
        let ghost all = columns@;
        let polynomials = interpolate_and_evaluate_polynomials(
            columns,
            log_blowup_factor,
            twiddles,
            store_polynomials_coefficients,
            base_column_pool,
        );
        proof {
            assert forall|i: int| 0 <= i < polynomials.len() implies poly_in_tree(
                #[trigger] polynomials@[i],
                30,
            ) && polynomials@[i].evals.domain.log_size_s() == all[i].log_size_s()
                + log_blowup_factor by {
                reveal(EvalsOrCoeffs::fits);
                reveal(committed);
                assert(all[i].fits(twiddles.root_coset, log_blowup_factor as nat));
                assert(committed(
                    all[i],
                    log_blowup_factor as nat,
                    store_polynomials_coefficients,
                    polynomials@[i],
                ));
                lemma_canonic_domain_wf(all[i].log_size_s() + log_blowup_factor as nat);
            }
        }
        Self::commit_polynomials(polynomials, lifting_log_size, salt_seed)
    }

    /// Commits to polynomials that are extended already.
    pub fn commit_polynomials(
        polynomials: Vec<Poly>,
        lifting_log_size: Option<u32>,
        salt_seed: Option<SaltSeed>,
    ) -> (r: Self)
        requires
            forall|k: int|
                0 <= k < polynomials.len() ==> poly_in_tree(#[trigger] polynomials@[k], 30),
            lifting_log_size is Some ==> lifting_log_size->0 <= 30,
            lifting_log_size is Some ==> forall|k: int|
                0 <= k < polynomials.len() ==> (
                #[trigger] polynomials@[k]).evals.domain.log_size_s() <= lifting_log_size->0,
        ensures
            r.wf(),
            r.polynomials == polynomials,
            r.commitment.salt_seed == salt_seed,
            r.commitment.height() == if polynomials.len() == 0 {
                0
            } else {
                lifted_height(polynomials@, lifting_log_size)
            },
    {
        let n: usize = polynomials.len();
        let mut max_log: u32 = 0;
        for k in 0..n
            invariant
                n == polynomials.len(),
                forall|i: int|
                    0 <= i < polynomials.len() ==> poly_in_tree(#[trigger] polynomials@[i], 30),
                max_log == largest_log(polynomials@, k as int),
                max_log <= 30,
        {
            assert(poly_in_tree(polynomials@[k as int], 30));
            let log: u32 = polynomials[k].evals.domain.log_size();
            if log > max_log {
                max_log = log;
            }
        }
        let height: u32 = match lifting_log_size {
            Some(log_size) => log_size,
            None => max_log,
        };
        let columns = column_refs(&polynomials);
        proof {
            assert forall|k: int| 0 <= k < columns.len() implies is_pow2(
                (#[trigger] columns@[k])@.len(),
            ) && 1 <= log_of(columns@[k]@.len()) <= height by {
                assert(poly_in_tree(polynomials@[k], 30));
                assert(*columns@[k] == polynomials@[k].evals.values);
                lemma_log_of(columns@[k]@.len(), polynomials@[k].evals.domain.log_size_s());
                lemma_largest_log(polynomials@, n as int, k);
            }
        }
        let commitment = MerkleProverLifted::<H>::commit(&columns, height, salt_seed);
        proof {
            assert forall|k: int| 0 <= k < polynomials.len() implies poly_in_tree(
                #[trigger] polynomials@[k],
                commitment.height(),
            ) by {
                assert(poly_in_tree(polynomials@[k], 30));
                lemma_largest_log(polynomials@, n as int, k);
            }
            assert(commitment.height() == tree_height(columns@, height as nat));
            if n == 0 {
                lemma_empty_leaves::<H>(columns@, height as nat, 0);
            }
        }
        CommitmentTreeProver { polynomials, commitment }
    }

    /// Opens the tree at the given rows.
    pub fn decommit(&self, queries: &[usize]) -> (r: (
        Vec<Vec<M31>>,
        MerkleDecommitmentLifted<H>,
    ))
        requires
            self.wf(),
            sorted_below(queries@, self.commitment.leaves().len() as int),
        ensures
            r.0.len() == self.polynomials.len(),
            forall|c: int|
                0 <= c < r.0.len() ==> (#[trigger] r.0@[c])@ == Seq::new(
                    queries@.len(),
                    |q: int|
                        lifted_value(
                            self.polynomials@[c].evals.values@,
                            queries@[q] as int,
                            self.commitment.height(),
                        ),
                ),
            r.1.hash_witness@ == witness_from::<H>(
                self.commitment.leaves(),
                deduped_s(queries@),
                0,
                self.commitment.height(),
            ),
            r.1.salts@ == match self.commitment.salt_seed {
                Some(seed) => Seq::new(
                    deduped_s(queries@).len(),
                    |k: int| salt_s::<H>(seed, deduped_s(queries@)[k] as int),
                ),
                None => Seq::empty(),
            },
    {
        let columns = column_refs(&self.polynomials);
        proof {
            assert forall|k: int| 0 <= k < columns.len() implies is_pow2(
                (#[trigger] columns@[k])@.len(),
            ) && 1 <= log_of(columns@[k]@.len()) <= self.commitment.height() by {
                assert(poly_in_tree(self.polynomials@[k], self.commitment.height()));
                assert(*columns@[k] == self.polynomials@[k].evals.values);
                lemma_log_of(
                    columns@[k]@.len(),
                    self.polynomials@[k].evals.domain.log_size_s(),
                );
            }
        }
        let r = self.commitment.decommit(queries, &columns);
        assert forall|c: int| 0 <= c < r.0.len() implies (#[trigger] r.0@[c])@ == Seq::new(
            queries@.len(),
            |q: int|
                lifted_value(
                    self.polynomials@[c].evals.values@,
                    queries@[q] as int,
                    self.commitment.height(),
                ),
        ) by {
            assert(*columns@[c] == self.polynomials@[c].evals.values);
        }
        r
    }
}

/// Without columns the lifted size plays no part.
proof fn lemma_empty_leaves<H: MerkleHasherLifted>(columns: Seq<&Vec<M31>>, a: nat, b: nat)
    requires
        columns.len() == 0,
    ensures
        forall|seed: Option<SaltSeed>|
            tree_leaves::<H>(columns, a, seed) == #[trigger] tree_leaves::<H>(columns, b, seed),
        tree_height(columns, a) == tree_height(columns, b),
{
    crate::vcs::prover::lemma_sorted_empty(columns);
}

/// The evaluations of all polynomials, by reference.
fn column_refs(polynomials: &Vec<Poly>) -> (r: Vec<&Vec<M31>>)
    ensures
        r@ == values_of(polynomials@),
        forall|k: int|
            0 <= k < r.len() ==> *(#[trigger] r@[k]) == polynomials@[k].evals.values,
{
    let n: usize = polynomials.len();
    let mut r: Vec<&Vec<M31>> = Vec::with_capacity(n);
    for k in 0..n
        invariant
            n == polynomials.len(),
            r@ == values_of(polynomials@).take(k as int),
    {
        r.push(&polynomials[k].evals.values);
        assert(r@ =~= values_of(polynomials@).take(k + 1));
    }
    assert(r@ =~= values_of(polynomials@));
    r
}

/// A tree is settled by what its columns hold, its height and its salts: two trees that agree in
/// these have the same leaves and the same root, so a tree without salts commits as if there were none to be had.
pub proof fn lemma_root_determined<H: MerkleHasherLifted>(
    a: CommitmentTreeProver<H>,
    b: CommitmentTreeProver<H>,
)
    requires
        a.wf(),
        b.wf(),
        same_contents(values_of(a.polynomials@), values_of(b.polynomials@)),
        a.commitment.height() == b.commitment.height(),
        a.commitment.salt_seed == b.commitment.salt_seed,
    ensures
        a.commitment.leaves() == b.commitment.leaves(),
        a.commitment.root_s() == b.commitment.root_s(),
{
    lemma_same_leaves::<H>(
        values_of(a.polynomials@),
        values_of(b.polynomials@),
        a.commitment.height(),
        a.commitment.salt_seed,
    );
    let last = a.commitment.layers@.len() - 1;
    assert(a.commitment.layers@[last]@ == b.commitment.layers@[last]@);
    assert(a.commitment.layers@[0]@ == b.commitment.layers@[0]@);
}

} // verus!
