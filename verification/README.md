# numerics_interp

Interpolation on binary64 nodes: piecewise linear, natural cubic spline,
Lagrange and barycentric.

- `src/` is verified with Verus and does no floating-point arithmetic. It reads
  the nodes as bit patterns and decides which node sets are accepted
  (`nodes`, `grid`), how binary64 values compare (`ieee`), and on which
  segment a piecewise interpolant is evaluated (`placement`, `grid`).
- `app/` holds the interpolators themselves, whose values and coefficients
  are binary64 numbers; it calls the library for every decision above.
- `tests/` checks the library, including its ordering model against `f64`.
