# cryotherm

Heat transport in frozen and thawing ground: an implicit finite-difference
heat solver on a 3D lattice with cavities.

- `src/` is the verified library (Verus):
  - `domain::layout`: `Axis` and `Shape`, the row-major index arithmetic,
    and its laws (indices of in-bounds points are in range, distinct, and
    cover the buffer).
  - `domain::lattice`: `Lattice<T>`, the field and the solid/void mask.
  - `math::tridiagonal`: the size checks and the diagonal-dominance decision
    of the Thomas kernel.
  - `solvers::heat`: the plan of a directional sweep, the maximal runs of
    solid points on each line, with the laws that a sweep touches every
    solid point exactly once and no void point, and that the plan is
    determined by the mask.
  - `geotherm_core`: the error type and size checks of the standalone
    Thomas kernel.
- `app/` holds what works on `f64` values: the Thomas elimination, its
  workspace, and the backward-Euler time stepper, built on the verified
  decisions and plan above.
