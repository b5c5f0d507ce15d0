//! Calls into other crates.
use itertools::Itertools;
use vstd::prelude::*;

verus! {

/// How many distinct pairs there are.
///
/// Calls `itertools::Itertools::unique`, which passes each element once, and
/// counts what it passes.
#[verifier::external_body]
pub(crate) fn count_unique(pairs: &Vec<(i64, i64)>) -> (r: usize)
    ensures
        r == pairs@.to_set().len(),
{
    pairs.iter().unique().count()
}

/// `a` does not come after `b` in the lexicographic order.
pub open spec fn in_order(a: (i64, usize), b: (i64, usize)) -> bool {
    a.0 < b.0 || (a.0 == b.0 && a.1 <= b.1)
}

/// The pairs in lexicographic order.
///
/// Calls `itertools::Itertools::sorted_by_cached_key` with each pair as its own
/// key: the result holds the same pairs, each as often as before, none before a
/// lesser one.
#[verifier::external_body]
pub(crate) fn sorted_pairs(pairs: Vec<(i64, usize)>) -> (r: Vec<(i64, usize)>)
    ensures
        r@.to_multiset() == pairs@.to_multiset(),
        forall|i: int, j: int| 0 <= i < j < r@.len() ==> in_order(r@[i], r@[j]),
{
    pairs.into_iter().sorted_by_cached_key(|pair| *pair).collect_vec()
}

} // verus!
