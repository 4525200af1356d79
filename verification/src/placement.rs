//! Locating a query point among ascending nodes.
//!
//! A piecewise interpolant on nodes `x₀ < … < xₙ` is evaluated by clamping
//! below `x₀` and above `xₙ`, and otherwise on the segment `[xᵢ, xᵢ₊₁]`
//! that holds the query point. The segment is found by binary search.
use vstd::prelude::*;

use crate::ieee::{
    float_eq, float_ge, float_le, float_lt, greater_equal, less_equal, order_key,
    partial_compare, spec_is_nan, FloatOrder,
};
use crate::nodes::{ascending_nodes, no_nan, strictly_ascending};

verus! {

/// The number of nodes strictly below `x`.
pub open spec fn count_below(xs: Seq<u64>, x: u64) -> nat
    decreases xs.len(),
{
    if xs.len() == 0 {
        0
    } else {
        count_below(xs.drop_last(), x) + if float_lt(xs.last(), x) {
            1nat
        } else {
            0nat
        }
    }
}

/// The number of nodes at or below `x`.
pub open spec fn count_at_or_below(xs: Seq<u64>, x: u64) -> nat
    decreases xs.len(),
{
    if xs.len() == 0 {
        0
    } else {
        count_at_or_below(xs.drop_last(), x) + if float_le(xs.last(), x) {
            1nat
        } else {
            0nat
        }
    }
}

/// Where a piecewise interpolant takes its value at a query point.
#[derive(Clone, Copy, Debug, PartialEq, Eq, Structural)]
pub enum Placement {
    /// Clamped to the value at the first node.
    First,
    /// Clamped to the value at the last node.
    Last,
    /// On the segment between node `i` and node `i + 1`.
    Segment(usize),
}

/// The placement of `x` for piecewise linear interpolation: clamped at or
/// below the first node, clamped at or above the last, and otherwise on the
/// segment whose right end is the first node at or above `x`.
pub open spec fn linear_placement_spec(xs: Seq<u64>, x: u64) -> Placement {
    if float_le(x, xs[0]) {
        Placement::First
    } else if float_ge(x, xs.last()) {
        Placement::Last
    } else {
        Placement::Segment((count_below(xs, x) - 1) as usize)
    }
}

/// The placement of `x` for the cubic spline: clamped at or below the first
/// node, clamped at or above the last, and otherwise on the segment whose
/// left end is the last node at or below `x`.
pub open spec fn spline_placement_spec(xs: Seq<u64>, x: u64) -> Placement {
    if float_le(x, xs[0]) {
        Placement::First
    } else if float_ge(x, xs.last()) {
        Placement::Last
    } else {
        Placement::Segment((count_at_or_below(xs, x) - 1) as usize)
    }
}

/// The first `p` nodes, and no others, are below `x`.
pub open spec fn below_prefix(xs: Seq<u64>, x: u64, p: int) -> bool {
    &&& 0 <= p <= xs.len()
    &&& forall|j: int| 0 <= j < p ==> float_lt(#[trigger] xs[j], x)
    &&& forall|j: int| p <= j < xs.len() ==> !float_lt(#[trigger] xs[j], x)
}

/// The count of nodes below `x` is the length of the prefix of nodes below `x`.
proof fn lemma_count_below_prefix(xs: Seq<u64>, x: u64, p: int)
    requires
        0 <= p <= xs.len(),
        forall|j: int| 0 <= j < p ==> float_lt(#[trigger] xs[j], x),
        forall|j: int| p <= j < xs.len() ==> !float_lt(#[trigger] xs[j], x),
    ensures
        count_below(xs, x) == p,
    decreases xs.len(),
{
    if xs.len() > 0 {
        let init = xs.drop_last();
        if p == xs.len() {
            assert(float_lt(xs[xs.len() - 1], x));
            lemma_count_below_prefix(init, x, p - 1);
        } else {
            assert(!float_lt(xs[xs.len() - 1], x));
            lemma_count_below_prefix(init, x, p);
        }
    }
}

/// The count of nodes at or below `x` is the length of the prefix of nodes at
/// or below `x`.
proof fn lemma_count_at_or_below_prefix(xs: Seq<u64>, x: u64, p: int)
    requires
        0 <= p <= xs.len(),
        forall|j: int| 0 <= j < p ==> float_le(#[trigger] xs[j], x),
        forall|j: int| p <= j < xs.len() ==> !float_le(#[trigger] xs[j], x),
    ensures
        count_at_or_below(xs, x) == p,
    decreases xs.len(),
{
    if xs.len() > 0 {
        let init = xs.drop_last();
        if p == xs.len() {
            assert(float_le(xs[xs.len() - 1], x));
            lemma_count_at_or_below_prefix(init, x, p - 1);
        } else {
            assert(!float_le(xs[xs.len() - 1], x));
            lemma_count_at_or_below_prefix(init, x, p);
        }
    }
}

/// Binary search of `x` among ascending nodes, as `binary_search_by` with
/// `partial_cmp` does: `Ok(i)` when node `i` equals `x`, else `Err(i)` with
/// `i` the number of nodes below `x`, where `x` would be inserted.
pub fn search_sorted(xs: &[u64], x: u64) -> (r: Result<usize, usize>)
    requires
        ascending_nodes(xs@),
        !spec_is_nan(x),
    ensures
        match r {
            Ok(i) => i < xs@.len() && float_eq(xs@[i as int], x) && i == count_below(xs@, x)
                && below_prefix(xs@, x, i as int),
            Err(i) => i == count_below(xs@, x) && below_prefix(xs@, x, i as int) && forall|j: int|
                0 <= j < xs@.len() ==> !float_eq(#[trigger] xs@[j], x),
        },
{
    let mut lo: usize = 0;
    let mut hi: usize = xs.len();
    while lo < hi
        invariant
            ascending_nodes(xs@),
            !spec_is_nan(x),
            lo <= hi <= xs@.len(),
            forall|j: int| 0 <= j < lo ==> float_lt(#[trigger] xs@[j], x),
            forall|j: int| hi <= j < xs@.len() ==> float_lt(x, #[trigger] xs@[j]),
        decreases hi - lo,
    {
        let mid = lo + (hi - lo) / 2;
        assert(!spec_is_nan(xs@[mid as int]));
        match partial_compare(xs[mid], x) {
            Some(FloatOrder::Less) => {
                assert forall|j: int| 0 <= j <= mid implies float_lt(#[trigger] xs@[j], x) by {
                    if j < mid {
                        assert(float_lt(xs@[j], xs@[mid as int]));
                    }
                }
                lo = mid + 1;
            },
            Some(FloatOrder::Greater) => {
                assert forall|j: int| mid <= j < xs@.len() implies float_lt(
                    x,
                    #[trigger] xs@[j],
                ) by {
                    if j > mid {
                        assert(float_lt(xs@[mid as int], xs@[j]));
                    }
                }
                hi = mid;
            },
            Some(FloatOrder::Equal) => {
                proof {
                    assert forall|j: int| 0 <= j < mid implies float_lt(#[trigger] xs@[j], x) by {
                        assert(float_lt(xs@[j], xs@[mid as int]));
                    }
                    assert forall|j: int| mid <= j < xs@.len() implies !float_lt(
                        #[trigger] xs@[j],
                        x,
                    ) by {
                        if j > mid {
                            assert(float_lt(xs@[mid as int], xs@[j]));
                        }
                    }
                    lemma_count_below_prefix(xs@, x, mid as int);
                }
                return Ok(mid);
            },
            None => {
                assert(false);
                return Err(lo);
            },
        }
    }
    proof {
        assert forall|j: int| lo <= j < xs@.len() implies !float_lt(#[trigger] xs@[j], x) by {
            assert(float_lt(x, xs@[j]));
        }
        lemma_count_below_prefix(xs@, x, lo as int);
        assert forall|j: int| 0 <= j < xs@.len() implies !float_eq(#[trigger] xs@[j], x) by {
            if j < lo {
                assert(float_lt(xs@[j], x));
            } else {
                assert(float_lt(x, xs@[j]));
            }
        }
    }
    Err(lo)
}

/// Where piecewise linear interpolation takes its value at `x`: the control
/// flow of the linear interpolant's evaluation, without its arithmetic.
pub fn linear_placement(xs: &[u64], x: u64) -> (r: Placement)
    requires
        xs@.len() >= 2,
        ascending_nodes(xs@),
        !spec_is_nan(x),
    ensures
        r == linear_placement_spec(xs@, x),
        r == Placement::First ==> float_le(x, xs@[0]),
        r == Placement::Last ==> float_ge(x, xs@[xs@.len() - 1]),
        r matches Placement::Segment(i) ==> i + 1 < xs@.len() && float_lt(xs@[i as int], x)
            && float_le(x, xs@[i + 1]),
{
    let n = xs.len();
    if less_equal(x, xs[0]) {
        return Placement::First;
    }
    if greater_equal(x, xs[n - 1]) {
        return Placement::Last;
    }
    let r = search_sorted(xs, x);
    let idx = match r {
        Ok(i) => i,
        Err(i) => i,
    };
    proof {
        assert(below_prefix(xs@, x, idx as int));
        assert(float_lt(xs@[0], x));
        assert(float_lt(x, xs@[n - 1]));
        if idx == n {
            assert(float_lt(xs@[n - 1], x));
        }
    }
    let i = if idx == 0 {
        0
    } else {
        idx - 1
    };
    let i = if i < n - 2 {
        i
    } else {
        n - 2
    };
    assert(float_lt(xs@[i as int], x));
    assert(!float_lt(xs@[i + 1], x));
    Placement::Segment(i)
}

/// Where the cubic spline takes its value at `x`: the control flow of the
/// spline's evaluation, without its arithmetic.
pub fn spline_placement(xs: &[u64], x: u64) -> (r: Placement)
    requires
        xs@.len() >= 2,
        ascending_nodes(xs@),
        !spec_is_nan(x),
    ensures
        r == spline_placement_spec(xs@, x),
        r == Placement::First ==> float_le(x, xs@[0]),
        r == Placement::Last ==> float_ge(x, xs@[xs@.len() - 1]),
        r matches Placement::Segment(i) ==> i + 1 < xs@.len() && float_le(xs@[i as int], x)
            && float_lt(x, xs@[i + 1]),
{
    let n = xs.len();
    if less_equal(x, xs[0]) {
        return Placement::First;
    }
    if greater_equal(x, xs[n - 1]) {
        return Placement::Last;
    }
    proof {
        assert(float_lt(xs@[0], x));
        assert(float_lt(x, xs@[n - 1]));
    }
    let idx = match search_sorted(xs, x) {
        Ok(i) => {
            proof {
                assert(i != 0);
                assert(i != n - 1);
                assert forall|j: int| 0 <= j <= i implies float_le(#[trigger] xs@[j], x) by {
                    if j < i {
                        assert(float_lt(xs@[j], x));
                    }
                }
                assert forall|j: int| i < j < n implies !float_le(#[trigger] xs@[j], x) by {
                    assert(float_lt(xs@[i as int], xs@[j]));
                }
                lemma_count_at_or_below_prefix(xs@, x, i + 1);
            }
            if i < n - 2 {
                i
            } else {
                n - 2
            }
        },
        Err(i) => {
            proof {
                if i == 0 {
                    assert(!float_lt(xs@[0], x));
                }
                if i == n {
                    assert(float_lt(xs@[n - 1], x));
                }
                assert forall|j: int| 0 <= j < i implies float_le(#[trigger] xs@[j], x) by {
                    assert(float_lt(xs@[j], x));
                }
                assert forall|j: int| i <= j < n implies !float_le(#[trigger] xs@[j], x) by {
                    assert(!float_lt(xs@[j], x));
                    assert(!float_eq(xs@[j], x));
                }
                lemma_count_at_or_below_prefix(xs@, x, i as int);
            }
            if i - 1 < n - 2 {
                i - 1
            } else {
                n - 2
            }
        },
    };
    Placement::Segment(idx)
}

/// The position of a placement along the nodes: clamping at the first node
/// comes before every segment, and clamping at the last after every segment.
pub open spec fn placement_rank(p: Placement, n: int) -> int {
    match p {
        Placement::First => -1,
        Placement::Segment(i) => i as int,
        Placement::Last => n,
    }
}

proof fn lemma_count_below_monotone(xs: Seq<u64>, x: u64, y: u64)
    requires
        float_le(x, y),
    ensures
        count_below(xs, x) <= count_below(xs, y) <= xs.len(),
    decreases xs.len(),
{
    if xs.len() > 0 {
        lemma_count_below_monotone(xs.drop_last(), x, y);
    }
}

proof fn lemma_count_at_or_below_monotone(xs: Seq<u64>, x: u64, y: u64)
    requires
        float_le(x, y),
    ensures
        count_at_or_below(xs, x) <= count_at_or_below(xs, y) <= xs.len(),
    decreases xs.len(),
{
    if xs.len() > 0 {
        lemma_count_at_or_below_monotone(xs.drop_last(), x, y);
    }
}

proof fn lemma_counts_agree_off_nodes(xs: Seq<u64>, x: u64)
    requires
        forall|j: int| 0 <= j < xs.len() ==> !float_eq(#[trigger] xs[j], x),
    ensures
        count_below(xs, x) == count_at_or_below(xs, x),
    decreases xs.len(),
{
    if xs.len() > 0 {
        let init = xs.drop_last();
        assert forall|j: int| 0 <= j < init.len() implies !float_eq(#[trigger] init[j], x) by {
            assert(init[j] == xs[j]);
        }
        assert(!float_eq(xs[xs.len() - 1], x));
        lemma_counts_agree_off_nodes(init, x);
    }
}

proof fn lemma_counts_positive(xs: Seq<u64>, x: u64)
    requires
        xs.len() > 0,
        float_lt(xs[0], x),
    ensures
        count_below(xs, x) >= 1,
        count_at_or_below(xs, x) >= 1,
    decreases xs.len(),
{
    if xs.len() > 1 {
        lemma_counts_positive(xs.drop_last(), x);
    }
}

/// Placement is monotone: a larger query point never lands on an earlier
/// segment, for the linear interpolant and for the spline alike.
pub proof fn law_placement_monotone(xs: Seq<u64>, x: u64, y: u64)
    requires
        2 <= xs.len() <= usize::MAX,
        ascending_nodes(xs),
        float_le(x, y),
    ensures
        placement_rank(linear_placement_spec(xs, x), xs.len() as int) <= placement_rank(
            linear_placement_spec(xs, y),
            xs.len() as int,
        ),
        placement_rank(spline_placement_spec(xs, x), xs.len() as int) <= placement_rank(
            spline_placement_spec(xs, y),
            xs.len() as int,
        ),
{
    assert(!spec_is_nan(xs[0]) && !spec_is_nan(xs[xs.len() - 1]));
    lemma_count_below_monotone(xs, x, y);
    lemma_count_at_or_below_monotone(xs, x, y);
    if !float_le(x, xs[0]) {
        assert(float_lt(xs[0], x));
        assert(float_lt(xs[0], y));
        lemma_counts_positive(xs, x);
        lemma_counts_positive(xs, y);
    }
}

/// At a node, the spline is evaluated on the segment that starts at that
/// node, and the linear interpolant on the segment that ends there; the first
/// and the last node are reached by clamping.
pub proof fn law_nodes_placement(xs: Seq<u64>, k: int)
    requires
        2 <= xs.len() <= usize::MAX,
        ascending_nodes(xs),
        0 <= k < xs.len(),
    ensures
        k == 0 ==> linear_placement_spec(xs, xs[k]) == Placement::First
            && spline_placement_spec(xs, xs[k]) == Placement::First,
        k == xs.len() - 1 ==> linear_placement_spec(xs, xs[k]) == Placement::Last
            && spline_placement_spec(xs, xs[k]) == Placement::Last,
        0 < k < xs.len() - 1 ==> linear_placement_spec(xs, xs[k]) == Placement::Segment(
            (k - 1) as usize,
        ) && spline_placement_spec(xs, xs[k]) == Placement::Segment(k as usize),
{
    let x = xs[k];
    let n = xs.len();
    assert(!spec_is_nan(x) && !spec_is_nan(xs[0]) && !spec_is_nan(xs[n - 1]));
    if 0 < k < n - 1 {
        assert(float_lt(xs[0], x));
        assert(float_lt(x, xs[n - 1]));
        assert forall|j: int| 0 <= j < k implies float_lt(#[trigger] xs[j], x) by {}
        assert forall|j: int| k <= j < n implies !float_lt(#[trigger] xs[j], x) by {
            if j > k {
                assert(float_lt(x, xs[j]));
            }
        }
        lemma_count_below_prefix(xs, x, k);
        assert forall|j: int| 0 <= j < k + 1 implies float_le(#[trigger] xs[j], x) by {
            if j < k {
                assert(float_lt(xs[j], x));
            }
        }
        assert forall|j: int| k + 1 <= j < n implies !float_le(#[trigger] xs[j], x) by {
            assert(float_lt(x, xs[j]));
        }
        lemma_count_at_or_below_prefix(xs, x, k + 1);
    }
    if k == n - 1 {
        assert(float_lt(xs[0], x));
    }
}

/// Away from the nodes the linear interpolant and the spline are evaluated on
/// the same segment.
pub proof fn law_placements_agree_off_nodes(xs: Seq<u64>, x: u64)
    requires
        2 <= xs.len(),
        ascending_nodes(xs),
        forall|j: int| 0 <= j < xs.len() ==> !float_eq(#[trigger] xs[j], x),
    ensures
        linear_placement_spec(xs, x) == spline_placement_spec(xs, x),
{
    lemma_counts_agree_off_nodes(xs, x);
}

/// Among ascending nodes, the nodes below `x` are a prefix as long as their count.
proof fn lemma_count_below_ascending(xs: Seq<u64>, x: u64)
    requires
        ascending_nodes(xs),
        !spec_is_nan(x),
    ensures
        below_prefix(xs, x, count_below(xs, x) as int),
    decreases xs.len(),
{
    if xs.len() > 0 {
        let n = xs.len() as int;
        let init = xs.drop_last();
        assert forall|j: int| 0 <= j < init.len() implies !spec_is_nan(#[trigger] init[j]) by {
            assert(init[j] == xs[j]);
        }
        assert forall|i: int, j: int| 0 <= i < j < init.len() implies float_lt(
            #[trigger] init[i],
            #[trigger] init[j],
        ) by {
            assert(init[i] == xs[i] && init[j] == xs[j]);
        }
        lemma_count_below_ascending(init, x);
        let c = count_below(init, x) as int;
        assert(count_below(xs, x) == count_below(init, x) + if float_lt(xs.last(), x) {
            1nat
        } else {
            0nat
        });
        if float_lt(xs[n - 1], x) {
            if c < init.len() {
                assert(!float_lt(init[c], x));
                assert(init[c] == xs[c]);
                assert(float_lt(xs[c], xs[n - 1]));
            }
            assert forall|j: int| 0 <= j < n implies float_lt(#[trigger] xs[j], x) by {
                if j < n - 1 {
                    assert(float_lt(xs[j], xs[n - 1]));
                }
            }
        } else {
            assert forall|j: int| 0 <= j < c implies float_lt(#[trigger] xs[j], x) by {
                assert(init[j] == xs[j]);
                assert(float_lt(init[j], x));
            }
            assert forall|j: int| c <= j < n implies !float_lt(#[trigger] xs[j], x) by {
                if j < n - 1 {
                    assert(init[j] == xs[j]);
                    assert(!float_lt(init[j], x));
                }
            }
        }
    }
}

/// Among ascending nodes, the nodes at or below `x` are a prefix as long as
/// their count.
proof fn lemma_count_at_or_below_ascending(xs: Seq<u64>, x: u64)
    requires
        ascending_nodes(xs),
        !spec_is_nan(x),
    ensures
        count_at_or_below(xs, x) <= xs.len(),
        forall|j: int| 0 <= j < count_at_or_below(xs, x) ==> float_le(#[trigger] xs[j], x),
        forall|j: int| count_at_or_below(xs, x) <= j < xs.len() ==> !float_le(#[trigger] xs[j], x),
    decreases xs.len(),
{
    if xs.len() > 0 {
        let n = xs.len() as int;
        let init = xs.drop_last();
        assert forall|j: int| 0 <= j < init.len() implies !spec_is_nan(#[trigger] init[j]) by {
            assert(init[j] == xs[j]);
        }
        assert forall|i: int, j: int| 0 <= i < j < init.len() implies float_lt(
            #[trigger] init[i],
            #[trigger] init[j],
        ) by {
            assert(init[i] == xs[i] && init[j] == xs[j]);
        }
        lemma_count_at_or_below_ascending(init, x);
        let c = count_at_or_below(init, x) as int;
        assert(count_at_or_below(xs, x) == count_at_or_below(init, x) + if float_le(xs.last(), x) {
            1nat
        } else {
            0nat
        });
        if float_le(xs[n - 1], x) {
            if c < init.len() {
                assert(!float_le(init[c], x));
                assert(init[c] == xs[c]);
                assert(float_lt(xs[c], xs[n - 1]));
            }
            assert forall|j: int| 0 <= j < n implies float_le(#[trigger] xs[j], x) by {
                if j < n - 1 {
                    assert(float_lt(xs[j], xs[n - 1]));
                }
            }
        } else {
            assert forall|j: int| 0 <= j < c implies float_le(#[trigger] xs[j], x) by {
                assert(init[j] == xs[j]);
                assert(float_le(init[j], x));
            }
            assert forall|j: int| c <= j < n implies !float_le(#[trigger] xs[j], x) by {
                if j < n - 1 {
                    assert(init[j] == xs[j]);
                    assert(!float_le(init[j], x));
                }
            }
        }
    }
}

/// Linear placement, over all ascending nodes and every query that is not a
/// NaN: the query is clamped to the first value only at or below the first
/// node, to the last value only at or above the last node, and otherwise lies
/// on its segment `(xᵢ, xᵢ₊₁]`. So a query strictly between the end nodes is
/// always placed on a segment that holds it.
pub proof fn law_linear_placement_sound(xs: Seq<u64>, x: u64)
    requires
        2 <= xs.len() <= usize::MAX,
        ascending_nodes(xs),
        !spec_is_nan(x),
    ensures
        match linear_placement_spec(xs, x) {
            Placement::First => float_le(x, xs[0]),
            Placement::Last => float_ge(x, xs[xs.len() - 1]),
            Placement::Segment(i) => i + 1 < xs.len() && float_lt(xs[i as int], x) && float_le(
                x,
                xs[i + 1],
            ),
        },
        float_lt(xs[0], x) && float_lt(x, xs[xs.len() - 1]) ==> linear_placement_spec(
            xs,
            x,
        ) is Segment,
{
    let n = xs.len() as int;
    assert(!spec_is_nan(xs[0]) && !spec_is_nan(xs[n - 1]));
    lemma_count_below_ascending(xs, x);
    let c = count_below(xs, x) as int;
    if !float_le(x, xs[0]) && !float_ge(x, xs[n - 1]) {
        if c == 0 {
            assert(!float_lt(xs[0], x));
        }
        if c == n {
            assert(float_lt(xs[n - 1], x));
        }
        assert(float_lt(xs[c - 1], x));
        assert(!float_lt(xs[c], x));
    }
}

/// Spline placement, over all ascending nodes and every query that is not a
/// NaN: the query is clamped to the first value only at or below the first
/// node, to the last value only at or above the last node, and otherwise lies
/// on its segment `[xᵢ, xᵢ₊₁)`. So a query strictly between the end nodes is
/// always placed on a segment that holds it.
pub proof fn law_spline_placement_sound(xs: Seq<u64>, x: u64)
    requires
        2 <= xs.len() <= usize::MAX,
        ascending_nodes(xs),
        !spec_is_nan(x),
    ensures
        match spline_placement_spec(xs, x) {
            Placement::First => float_le(x, xs[0]),
            Placement::Last => float_ge(x, xs[xs.len() - 1]),
            Placement::Segment(i) => i + 1 < xs.len() && float_le(xs[i as int], x) && float_lt(
                x,
                xs[i + 1],
            ),
        },
        float_lt(xs[0], x) && float_lt(x, xs[xs.len() - 1]) ==> spline_placement_spec(
            xs,
            x,
        ) is Segment,
{
    let n = xs.len() as int;
    assert(!spec_is_nan(xs[0]) && !spec_is_nan(xs[n - 1]));
    lemma_count_at_or_below_ascending(xs, x);
    let c = count_at_or_below(xs, x) as int;
    if !float_le(x, xs[0]) && !float_ge(x, xs[n - 1]) {
        if c == 0 {
            assert(!float_le(xs[0], x));
        }
        if c == n {
            assert(float_le(xs[n - 1], x));
        }
        assert(float_le(xs[c - 1], x));
        assert(!float_le(xs[c], x));
    }
}

} // verus!
