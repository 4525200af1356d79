//! A validated, searchable set of interpolation nodes.
use vstd::prelude::*;

use crate::ieee::{float_le, float_lt, is_nan, spec_is_nan};
use crate::nodes::{
    ascending_nodes, lemma_adjacent_ascent_is_strict, no_descent, no_nan, sorted_nodes,
    sorted_nodes_valid,
};
use crate::placement::{
    linear_placement, linear_placement_spec, spline_placement, spline_placement_spec, Placement,
};

verus! {

/// The nodes of a piecewise interpolant, as binary64 bit patterns: at least
/// two of them, none a NaN, none `>=` the node after it.
pub struct NodeGrid {
    xs: Vec<u64>,
}

impl View for NodeGrid {
    type V = Seq<u64>;

    closed spec fn view(&self) -> Seq<u64> {
        self.xs@
    }
}

impl NodeGrid {
    #[verifier::type_invariant]
    spec fn well_formed(self) -> bool {
        &&& self.xs@.len() >= 2
        &&& no_nan(self.xs@)
        &&& no_descent(self.xs@)
    }

    /// The grid on the nodes `xs` for `n_ys` values, if they are accepted:
    /// at least two nodes, as many values as nodes, and sorted nodes (none a
    /// NaN, none `>=` the node after it).
    pub fn new(xs: &[u64], n_ys: usize) -> (r: Option<NodeGrid>)
        ensures
            r is Some <==> sorted_nodes(xs@, n_ys as int),
            r matches Some(g) ==> g@ == xs@,
    {
        if !sorted_nodes_valid(xs, n_ys) {
            return None;
        }
        let mut copy: Vec<u64> = Vec::with_capacity(xs.len());
        let mut i: usize = 0;
        while i < xs.len()
            invariant
                i <= xs@.len(),
                copy@ == xs@.subrange(0, i as int),
            decreases xs@.len() - i,
        {
            copy.push(xs[i]);
            i = i + 1;
        }
        assert(copy@ == xs@);
        Some(NodeGrid { xs: copy })
    }

    /// The node bit patterns: at least two, none a NaN, each below the next.
    pub fn nodes(&self) -> (r: &[u64])
        ensures
            r@ == self@,
            r@.len() >= 2,
            ascending_nodes(r@),
    {
        proof {
            use_type_invariant(self);
            lemma_adjacent_ascent_is_strict(self.xs@);
        }
        self.xs.as_slice()
    }

    /// The number of nodes.
    pub fn len(&self) -> (r: usize)
        ensures
            r == self@.len(),
            r >= 2,
    {
        proof {
            use_type_invariant(self);
        }
        self.xs.len()
    }

    /// The number of intervals between consecutive nodes: one fewer than the
    /// nodes, so at least one.
    pub fn n_intervals(&self) -> (r: usize)
        ensures
            r == self@.len() - 1,
            r >= 1,
    {
        proof {
            use_type_invariant(self);
        }
        self.xs.len() - 1
    }

    /// Where piecewise linear interpolation takes its value at `x`; `None`
    /// when `x` is a NaN, where the evaluation finds no segment.
    pub fn locate_linear(&self, x: u64) -> (r: Option<Placement>)
        ensures
            r == (if spec_is_nan(x) {
                None
            } else {
                Some(linear_placement_spec(self@, x))
            }),
            r == Some(Placement::First) ==> float_le(x, self@[0]),
            r == Some(Placement::Last) ==> float_le(self@[self@.len() - 1], x),
            r matches Some(Placement::Segment(i)) ==> i + 1 < self@.len() && float_lt(
                self@[i as int],
                x,
            ) && float_le(x, self@[i + 1]),
    {
        proof {
            use_type_invariant(self);
            lemma_adjacent_ascent_is_strict(self.xs@);
        }
        if is_nan(x) {
            return None;
        }
        Some(linear_placement(self.xs.as_slice(), x))
    }

    /// Where the cubic spline takes its value at `x`; `None` when `x` is a
    /// NaN, where the evaluation finds no segment.
    pub fn locate_spline(&self, x: u64) -> (r: Option<Placement>)
        ensures
            r == (if spec_is_nan(x) {
                None
            } else {
                Some(spline_placement_spec(self@, x))
            }),
            r == Some(Placement::First) ==> float_le(x, self@[0]),
            r == Some(Placement::Last) ==> float_le(self@[self@.len() - 1], x),
            r matches Some(Placement::Segment(i)) ==> i + 1 < self@.len() && float_le(
                self@[i as int],
                x,
            ) && float_lt(x, self@[i + 1]),
    {
        proof {
            use_type_invariant(self);
            lemma_adjacent_ascent_is_strict(self.xs@);
        }
        if is_nan(x) {
            return None;
        }
        Some(spline_placement(self.xs.as_slice(), x))
    }
}

} // verus!
