//! Buffers that a scheme takes from its pool and gives back to it.

use vstd::prelude::*;

use super::openings::given_back;
use crate::poly::circle_poly::{EvalsOrCoeffs, Poly};
use crate::poly::extension::draw_all;

verus! {

/// The columns that are extended to `2^log` rows.
pub open spec fn extended_to(columns: Seq<EvalsOrCoeffs>, log_blowup: nat, log: int) -> Seq<
    EvalsOrCoeffs,
> {
    columns.filter(|c: EvalsOrCoeffs| c.log_size_s() + log_blowup == log)
}

/// The first `n` polynomials that stand on `2^log` rows.
pub open spec fn standing_on(polys: Seq<Poly>, n: int, log: int) -> Seq<Poly> {
    polys.take(n).filter(|p: Poly| p.evals.domain.log_size_s() == log)
}

/// Extending columns takes a buffer of its size for each of them, as long as there are any.
pub proof fn lemma_drawn(
    held: Seq<nat>,
    columns: Seq<EvalsOrCoeffs>,
    log_blowup: nat,
    log: int,
)
    requires
        0 <= log < held.len(),
        forall|i: int|
            0 <= i < columns.len() ==> (#[trigger] columns[i]).log_size_s() + log_blowup
                < held.len(),
    ensures
        draw_all(held, columns, log_blowup).len() == held.len(),
        draw_all(held, columns, log_blowup)[log] == if held[log] >= extended_to(
            columns,
            log_blowup,
            log,
        ).len() {
            held[log] - extended_to(columns, log_blowup, log).len()
        } else {
            0
        },
    decreases columns.len(),
{
    reveal(Seq::filter);
    if columns.len() > 0 {
        let rest = columns.drop_last();
        assert forall|i: int| 0 <= i < rest.len() implies (#[trigger] rest[i]).log_size_s()
            + log_blowup < held.len() by {
            assert(rest[i] == columns[i]);
        }
        lemma_drawn(held, rest, log_blowup, log);
        assert(columns[columns.len() - 1].log_size_s() + log_blowup < held.len());
    }
}

/// Giving the buffers of polynomials back adds one of its size for each of them.
pub proof fn lemma_given_back(held: Seq<nat>, polys: Seq<Poly>, n: int, log: int)
    requires
        0 <= log < held.len(),
        0 <= n <= polys.len(),
        forall|i: int|
            0 <= i < polys.len() ==> (#[trigger] polys[i]).evals.domain.log_size_s() < held.len(),
    ensures
        given_back(held, polys, n).len() == held.len(),
        given_back(held, polys, n)[log] == held[log] + standing_on(polys, n, log).len(),
    decreases n,
{
    reveal(Seq::filter);
    if n > 0 {
        lemma_given_back(held, polys, n - 1, log);
        assert(polys.take(n).drop_last() =~= polys.take(n - 1));
        assert(polys.take(n).last() == polys[n - 1]);
    }
}

} // verus!
