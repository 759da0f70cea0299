//! Work that is handed out to the threads of a pool.

use rayon::iter::{IntoParallelIterator, ParallelIterator};
use vstd::prelude::*;

verus! {

/// What a function gives for the numbers below `n`, computed on the threads of a pool (`rayon`'s
/// `into_par_iter` on a range, with `map` and `collect` into a vector).
///
/// The function is called once for each number, in whatever order, and what it returned stands at
/// the place of the number.
#[verifier::external_body]
pub(crate) fn par_map<R: Send, F: Fn(usize) -> R + Sync + Send>(n: usize, f: F) -> (r: Vec<R>)
    requires
        forall|i: usize| i < n ==> call_requires(f, (i,)),
    ensures
        r@.len() == n,
        forall|i: usize| i < n ==> call_ensures(f, (i,), #[trigger] r@[i as int]),
{
    (0..n).into_par_iter().map(f).collect()
}

/// What a function makes of the items of a vector, computed on the threads of a pool (`rayon`'s
/// `into_par_iter` on a vector, with `map` and `collect` into a vector).
///
/// The function is called once for each item, in whatever order, and what it returned stands at
/// the place of the item.
#[verifier::external_body]
pub(crate) fn par_map_vec<T: Send, R: Send, F: Fn(T) -> R + Sync + Send>(items: Vec<T>, f: F) -> (r:
    Vec<R>)
    requires
        forall|i: int| 0 <= i < items@.len() ==> call_requires(f, (#[trigger] items@[i],)),
    ensures
        r@.len() == items@.len(),
        forall|i: int|
            0 <= i < items@.len() ==> call_ensures(f, (items@[i],), #[trigger] r@[i]),
{
    items.into_par_iter().map(f).collect()
}

} // verus!
