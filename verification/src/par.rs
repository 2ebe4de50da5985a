//! Spreading independent work over the processor cores.
use rayon::iter::{IntoParallelIterator, ParallelIterator};
use vstd::prelude::*;

verus! {

/// Calls `f` on every index below `n` and collects the results in index order.
///
/// The body is a parallel range, `rayon`'s `map` and `collect`. What is taken
/// on trust: `collect` of a mapped range yields one result per index, at the
/// place of that index, whichever thread computed it.
#[verifier::external_body]
pub(crate) fn par_map<T: Send, F: Fn(usize) -> T + Send + Sync>(n: usize, f: F) -> (r: Vec<T>)
    requires
        forall|i: usize| i < n ==> #[trigger] call_requires(f, (i,)),
    ensures
        r@.len() == n,
        forall|i: usize| i < n ==> call_ensures(f, (i,), #[trigger] r@[i as int]),
{
    (0..n).into_par_iter().map(f).collect()
}

} // verus!
