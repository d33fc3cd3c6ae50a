//! Extents and axes of a 3D lattice.
//!
//! A lattice is stored row-major with `x` fastest, then `y`, then `z`.
//! [`Shape`] describes the extents and provides the index arithmetic that
//! maps `(x, y, z)` to a flat buffer position. [`Axis`] names one of the
//! three coordinate axes and knows which two are transverse to it, which
//! the sweep drivers use to iterate lines.

use vstd::prelude::*;

verus! {

/// One of the three coordinate axes.
#[derive(Debug, Clone, Copy, PartialEq, Eq, Structural)]
pub enum Axis {
    /// The x-axis.
    X,
    /// The y-axis.
    Y,
    /// The z-axis.
    Z,
}

impl Axis {
    /// All three axes, in sweep order.
    pub const ALL: [Axis; 3] = [Axis::X, Axis::Y, Axis::Z];

    /// The axis that follows `self` in the cyclic order X, Y, Z.
    pub open spec fn next(self) -> Axis {
        match self {
            Axis::X => Axis::Y,
            Axis::Y => Axis::Z,
            Axis::Z => Axis::X,
        }
    }

    /// The two axes orthogonal to `self`, in cyclic order.
    ///
    /// For [`Axis::X`] this returns `[Y, Z]`; for [`Axis::Y`] it returns
    /// `[Z, X]`; for [`Axis::Z`] it returns `[X, Y]`.
    pub fn orthogonal(self) -> (r: [Axis; 2])
        ensures
            r[0] == self.next(),
            r[1] == self.next().next(),
    {
        match self {
            Axis::X => [Axis::Y, Axis::Z],
            Axis::Y => [Axis::Z, Axis::X],
            Axis::Z => [Axis::X, Axis::Y],
        }
    }
}

/// Extent of a 3D lattice along each axis.
#[derive(Debug, Clone, Copy, PartialEq, Eq, Structural)]
pub struct Shape {
    /// Extent along the x-axis.
    pub nx: usize,
    /// Extent along the y-axis.
    pub ny: usize,
    /// Extent along the z-axis.
    pub nz: usize,
}

impl Shape {
    /// Number of points of a plane of constant `z`.
    pub open spec fn plane(self) -> int {
        self.nx * self.ny
    }

    /// Total number of points, as a mathematical integer.
    pub open spec fn spec_len(self) -> int {
        self.nx * self.ny * self.nz
    }

    /// Extent along `axis`.
    pub open spec fn spec_dim(self, axis: Axis) -> int {
        match axis {
            Axis::X => self.nx as int,
            Axis::Y => self.ny as int,
            Axis::Z => self.nz as int,
        }
    }

    /// Stride of `axis` in flat row-major storage.
    pub open spec fn spec_stride(self, axis: Axis) -> int {
        match axis {
            Axis::X => 1,
            Axis::Y => self.nx as int,
            Axis::Z => self.plane(),
        }
    }

    /// Row-major flat position of `(x, y, z)`.
    pub open spec fn spec_idx(self, x: int, y: int, z: int) -> int {
        x + y * self.nx + z * self.plane()
    }

    /// `(x, y, z)` lies inside the shape.
    pub open spec fn contains(self, x: int, y: int, z: int) -> bool {
        &&& 0 <= x < self.nx
        &&& 0 <= y < self.ny
        &&& 0 <= z < self.nz
    }

    /// The point count, and every partial product that computes it, fits a `usize`.
    pub open spec fn fits(self) -> bool {
        &&& self.plane() <= usize::MAX
        &&& self.spec_len() <= usize::MAX
    }

    /// Constructs a shape from three extents.
    pub fn new(nx: usize, ny: usize, nz: usize) -> (s: Self)
        ensures
            s.nx == nx,
            s.ny == ny,
            s.nz == nz,
    {
        Self { nx, ny, nz }
    }

    /// Constructs a cube of side `n`.
    pub fn cube(n: usize) -> (s: Self)
        ensures
            s.nx == n,
            s.ny == n,
            s.nz == n,
    {
        Self { nx: n, ny: n, nz: n }
    }

    /// Total number of points.
    pub fn len(&self) -> (r: usize)
        requires
            self.fits(),
        ensures
            r == self.spec_len(),
    {
        self.nx * self.ny * self.nz
    }

    /// Largest of the three extents.
    pub fn max_axis(&self) -> (r: usize)
        ensures
            r >= self.nx,
            r >= self.ny,
            r >= self.nz,
            r == self.nx || r == self.ny || r == self.nz,
    {
        let m = if self.nx > self.ny {
            self.nx
        } else {
            self.ny
        };
        if m > self.nz {
            m
        } else {
            self.nz
        }
    }

    /// Extent along `axis`.
    pub fn dim(&self, axis: Axis) -> (r: usize)
        ensures
            r == self.spec_dim(axis),
    {
        match axis {
            Axis::X => self.nx,
            Axis::Y => self.ny,
            Axis::Z => self.nz,
        }
    }

    /// Stride of `axis` in flat row-major storage.
    ///
    /// `x` has stride 1, `y` has stride `nx`, `z` has stride `nx * ny`.
    pub fn stride(&self, axis: Axis) -> (r: usize)
        requires
            axis == Axis::Z ==> self.plane() <= usize::MAX,
        ensures
            r == self.spec_stride(axis),
    {
        match axis {
            Axis::X => 1,
            Axis::Y => self.nx,
            Axis::Z => self.nx * self.ny,
        }
    }

    /// Flat index of `(x, y, z)` in row-major storage.
    pub fn idx(&self, x: usize, y: usize, z: usize) -> (r: usize)
        requires
            self.plane() <= usize::MAX,
            self.spec_idx(x as int, y as int, z as int) <= usize::MAX,
        ensures
            r == self.spec_idx(x as int, y as int, z as int),
            r == x * self.spec_stride(Axis::X) + y * self.spec_stride(Axis::Y) + z
                * self.spec_stride(Axis::Z),
    {
        let sx = self.stride(Axis::X);
        let sy = self.stride(Axis::Y);
        let sz = self.stride(Axis::Z);
        assert(y * self.nx >= 0 && z * (self.nx * self.ny) >= 0) by (nonlinear_arith);
        assert(x * sx == x);
        x * sx + y * sy + z * sz
    }
}

/// The three axes of a sweep, `axis` and its two orthogonal axes, are
/// pairwise distinct, so every axis `other` is one of them.
pub proof fn lemma_orthogonal_distinct(axis: Axis, other: Axis)
    ensures
        axis != axis.next(),
        axis != axis.next().next(),
        axis.next() != axis.next().next(),
        axis.next().next().next() == axis,
        other == axis || other == axis.next() || other == axis.next().next(),
{
}

/// The point count is the product of the extents along an axis and its
/// two orthogonal axes, whichever axis is chosen.
pub proof fn lemma_len_by_axis(shape: Shape, axis: Axis)
    ensures
        shape.spec_len() == shape.spec_dim(axis) * shape.spec_dim(axis.next()) * shape.spec_dim(
            axis.next().next(),
        ),
{
    let (a, b, c) = (shape.nx as int, shape.ny as int, shape.nz as int);
    assert(a * b * c == b * c * a && a * b * c == c * a * b) by (nonlinear_arith);
}

/// Each stride is the extent times the stride of the axis before it: `y`
/// skips a whole row of `x`, and `z` a whole plane of `x` and `y`.
pub proof fn lemma_stride_nesting(shape: Shape)
    ensures
        shape.spec_stride(Axis::Y) == shape.spec_dim(Axis::X) * shape.spec_stride(Axis::X),
        shape.spec_stride(Axis::Z) == shape.spec_dim(Axis::Y) * shape.spec_stride(Axis::Y),
        shape.spec_len() == shape.spec_dim(Axis::Z) * shape.spec_stride(Axis::Z),
{
    let (a, b, c) = (shape.nx as int, shape.ny as int, shape.nz as int);
    assert(b * a == a * b && c * (a * b) == a * b * c) by (nonlinear_arith);
}

/// Every point inside the shape has a flat index inside the buffer.
pub proof fn lemma_idx_in_bounds(shape: Shape, x: int, y: int, z: int)
    requires
        shape.contains(x, y, z),
    ensures
        0 <= shape.spec_idx(x, y, z) < shape.spec_len(),
{
    let (a, b, c) = (shape.nx as int, shape.ny as int, shape.nz as int);
    assert(0 <= x + y * a + z * (a * b) < a * b * c) by (nonlinear_arith)
        requires
            0 <= x < a,
            0 <= y < b,
            0 <= z < c,
    {
        assert(x + y * a < a * b) by {
            assert(y * a <= (b - 1) * a);
        }
        assert(z * (a * b) <= (c - 1) * (a * b));
    }
}

/// Distinct points inside the shape have distinct flat indices.
pub proof fn lemma_idx_injective(shape: Shape, x1: int, y1: int, z1: int, x2: int, y2: int, z2: int)
    requires
        shape.contains(x1, y1, z1),
        shape.contains(x2, y2, z2),
        shape.spec_idx(x1, y1, z1) == shape.spec_idx(x2, y2, z2),
    ensures
        x1 == x2,
        y1 == y2,
        z1 == z2,
{
    lemma_idx_decompose(shape, x1, y1, z1);
    lemma_idx_decompose(shape, x2, y2, z2);
}

/// The coordinates of a point inside the shape are recovered from its
/// flat index: `x` is the index modulo `nx`, `y` the index over `nx`
/// modulo `ny`, and `z` the index over `nx * ny`.
pub proof fn lemma_idx_decompose(shape: Shape, x: int, y: int, z: int)
    requires
        shape.contains(x, y, z),
    ensures
        shape.spec_idx(x, y, z) % (shape.nx as int) == x,
        (shape.spec_idx(x, y, z) / (shape.nx as int)) % (shape.ny as int) == y,
        shape.spec_idx(x, y, z) / shape.plane() == z,
{
    let a = shape.nx as int;
    let b = shape.ny as int;
    let i = shape.spec_idx(x, y, z);
    let q = y + z * b;
    assert(i == x + q * a) by (nonlinear_arith)
        requires
            i == x + y * a + z * (a * b),
            q == y + z * b,
    ;
    vstd::arithmetic::div_mod::lemma_fundamental_div_mod_converse(i, a, q, x);
    vstd::arithmetic::div_mod::lemma_fundamental_div_mod_converse(q, b, z, y);
    assert(a * b > 0) by (nonlinear_arith)
        requires
            a > 0,
            b > 0,
    ;
    assert(i == z * (a * b) + (x + y * a)) by (nonlinear_arith)
        requires
            i == x + y * a + z * (a * b),
    ;
    assert(x + y * a < a * b) by (nonlinear_arith)
        requires
            0 <= x < a,
            0 <= y < b,
    {
        assert(y * a <= (b - 1) * a);
    }
    assert(x + y * a >= 0) by (nonlinear_arith)
        requires
            0 <= x,
            0 <= y,
            a > 0,
    ;
    vstd::arithmetic::div_mod::lemma_fundamental_div_mod_converse(i, a * b, z, x + y * a);
}

/// Every flat index inside the buffer belongs to a point inside the shape.
pub proof fn lemma_idx_onto(shape: Shape, i: int)
    requires
        0 <= i < shape.spec_len(),
    ensures
        shape.contains(i % (shape.nx as int), (i / (shape.nx as int)) % (shape.ny as int), i / shape.plane()),
        shape.spec_idx(i % (shape.nx as int), (i / (shape.nx as int)) % (shape.ny as int), i / shape.plane()) == i,
{
    let a = shape.nx as int;
    let b = shape.ny as int;
    let c = shape.nz as int;
    assert(a > 0 && b > 0 && c > 0) by (nonlinear_arith)
        requires
            0 <= i < a * b * c,
            a >= 0,
            b >= 0,
            c >= 0,
    ;
    let x = i % a;
    let q = i / a;
    let y = q % b;
    let z = q / b;
    vstd::arithmetic::div_mod::lemma_fundamental_div_mod(i, a);
    vstd::arithmetic::div_mod::lemma_fundamental_div_mod(q, b);
    vstd::arithmetic::div_mod::lemma_div_denominator(i, a, b);
    assert(q / b == i / (a * b));
    assert(i == x + y * a + z * (a * b)) by (nonlinear_arith)
        requires
            i == a * q + x,
            q == b * z + y,
    ;
    assert(0 <= z < c) by (nonlinear_arith)
        requires
            0 <= i < a * b * c,
            i == x + y * a + z * (a * b),
            0 <= x < a,
            0 <= y < b,
            a > 0,
            b > 0,
    {
        assert(x + y * a >= 0);
        assert(x + y * a < a * b) by {
            assert(y * a <= (b - 1) * a);
        }
    }
}

} // verus!
