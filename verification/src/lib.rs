//! Float-free core of a small interpolation library.
//!
//! Interpolation nodes are IEEE-754 binary64 numbers. The library never does
//! arithmetic on them; it decides, from their bit patterns alone, whether a
//! node set is acceptable and which segment of a piecewise interpolant a
//! query point falls on.
use vstd::prelude::*;

pub mod ieee;
pub mod nodes;
pub mod placement;
pub mod grid;

verus! {

} // verus!
