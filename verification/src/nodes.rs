//! Acceptance of interpolation node sets.
use vstd::prelude::*;

use crate::ieee::{float_ge, float_lt, greater_equal, is_nan, order_key, spec_is_nan};

verus! {

/// Node and value counts that an interpolator accepts: at least two nodes,
/// and one value per node.
pub open spec fn counts_ok(n_xs: int, n_ys: int) -> bool {
    n_xs >= 2 && n_xs == n_ys
}

/// The node at `i` is not below its successor (`xs[i] >= xs[i + 1]`).
pub open spec fn descends_at(xs: Seq<u64>, i: int) -> bool {
    float_ge(xs[i], xs[i + 1])
}

/// No node is `>=` the node after it. A NaN node passes this test, since a
/// NaN compares with nothing; `sorted_nodes` excludes it separately.
pub open spec fn no_descent(xs: Seq<u64>) -> bool {
    forall|i: int| 0 <= i < xs.len() - 1 ==> !#[trigger] descends_at(xs, i)
}

/// No node is a NaN.
pub open spec fn no_nan(xs: Seq<u64>) -> bool {
    forall|i: int| 0 <= i < xs.len() ==> !spec_is_nan(#[trigger] xs[i])
}

/// Every node is below every later node.
pub open spec fn strictly_ascending(xs: Seq<u64>) -> bool {
    forall|i: int, j: int| 0 <= i < j < xs.len() ==> float_lt(#[trigger] xs[i], #[trigger] xs[j])
}

/// Nodes on which a piecewise interpolant can be searched: none is a NaN and
/// they ascend strictly.
pub open spec fn ascending_nodes(xs: Seq<u64>) -> bool {
    no_nan(xs) && strictly_ascending(xs)
}

/// Whether the counts of nodes and values are acceptable.
pub fn node_counts_valid(n_xs: usize, n_ys: usize) -> (r: bool)
    ensures
        r == counts_ok(n_xs as int, n_ys as int),
{
    n_xs >= 2 && n_xs == n_ys
}

/// A sorted node set for `n_ys` values: acceptable counts, no NaN (a NaN
/// has no place in an order), and no node `>=` the node after it.
pub open spec fn sorted_nodes(xs: Seq<u64>, n_ys: int) -> bool {
    counts_ok(xs.len() as int, n_ys) && no_nan(xs) && no_descent(xs)
}

/// Whether `xs` (node bit patterns) with `n_ys` values is accepted as the
/// node set of a piecewise interpolant: the counts are acceptable and the
/// nodes are sorted, which a node set holding a NaN is not.
pub fn sorted_nodes_valid(xs: &[u64], n_ys: usize) -> (r: bool)
    ensures
        r == sorted_nodes(xs@, n_ys as int),
        r ==> ascending_nodes(xs@),
{
    if !node_counts_valid(xs.len(), n_ys) {
        return false;
    }
    let n = xs.len();
    let mut i: usize = 0;
    while i + 1 < n
        invariant
            n == xs@.len(),
            n >= 2,
            i + 1 <= n,
            forall|k: int| 0 <= k < i ==> !#[trigger] descends_at(xs@, k),
        decreases n - i,
    {
        if greater_equal(xs[i], xs[i + 1]) {
            assert(descends_at(xs@, i as int));
            return false;
        }
        i = i + 1;
    }
    if !nodes_without_nan(xs) {
        return false;
    }
    proof {
        lemma_adjacent_ascent_is_strict(xs@);
    }
    true
}

/// A node set without NaNs that passes the adjacent test ascends strictly.
pub proof fn lemma_adjacent_ascent_is_strict(xs: Seq<u64>)
    requires
        no_nan(xs),
        no_descent(xs),
    ensures
        strictly_ascending(xs),
{
    assert forall|i: int, j: int| 0 <= i < j < xs.len() implies float_lt(
        #[trigger] xs[i],
        #[trigger] xs[j],
    ) by {
        lemma_keys_rise(xs, i, j);
    }
}

proof fn lemma_keys_rise(xs: Seq<u64>, i: int, j: int)
    requires
        no_nan(xs),
        no_descent(xs),
        0 <= i < j < xs.len(),
    ensures
        order_key(xs[i]) < order_key(xs[j]),
    decreases j - i,
{
    assert(!descends_at(xs, j - 1));
    assert(!spec_is_nan(xs[j - 1]) && !spec_is_nan(xs[j]));
    if i < j - 1 {
        lemma_keys_rise(xs, i, j - 1);
    }
}

/// Whether no node is a NaN.
pub fn nodes_without_nan(xs: &[u64]) -> (r: bool)
    ensures
        r == no_nan(xs@),
{
    let mut i: usize = 0;
    while i < xs.len()
        invariant
            i <= xs@.len(),
            forall|k: int| 0 <= k < i ==> !spec_is_nan(#[trigger] xs@[k]),
        decreases xs@.len() - i,
    {
        if is_nan(xs[i]) {
            return false;
        }
        i = i + 1;
    }
    true
}

/// The counts an interpolator accepts, for every count: at least two nodes
/// and exactly one value per node, with no upper bound.
pub proof fn law_counts_accepted(n_xs: int, n_ys: int)
    ensures
        counts_ok(n_xs, n_ys) <==> (2 <= n_xs && n_xs == n_ys),
{
}

/// Node acceptance, for every node list: it is accepted exactly when it has at
/// least two nodes, one value per node, no NaN, and each node strictly below
/// the next as binary64 values.
pub proof fn law_sorted_nodes_exact(xs: Seq<u64>, n_ys: int)
    ensures
        sorted_nodes(xs, n_ys) <==> {
            &&& 2 <= xs.len()
            &&& xs.len() == n_ys
            &&& forall|i: int| 0 <= i < xs.len() ==> !spec_is_nan(#[trigger] xs[i])
            &&& forall|i: int| 0 <= i < xs.len() - 1 ==> float_lt(#[trigger] xs[i], xs[i + 1])
        },
{
    if no_nan(xs) {
        if no_descent(xs) {
            assert forall|i: int| 0 <= i < xs.len() - 1 implies float_lt(
                #[trigger] xs[i],
                xs[i + 1],
            ) by {
                assert(!descends_at(xs, i));
                assert(!spec_is_nan(xs[i]) && !spec_is_nan(xs[i + 1]));
            }
        }
        if forall|i: int| 0 <= i < xs.len() - 1 ==> float_lt(#[trigger] xs[i], xs[i + 1]) {
            assert forall|i: int| 0 <= i < xs.len() - 1 implies !#[trigger] descends_at(xs, i) by {
                assert(float_lt(xs[i], xs[i + 1]));
            }
        }
    }
}

} // verus!
