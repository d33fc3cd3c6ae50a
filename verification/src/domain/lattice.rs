//! The 3D lattice: field values and per-point state.
//!
//! A [`Lattice`] owns a field buffer and a per-point state mask. The
//! state mask marks each point as either [`Point::Solid`] or
//! [`Point::Void`]; the solver's line traversal splits at voids.

use vstd::prelude::*;

use super::layout::{lemma_idx_decompose, lemma_idx_in_bounds, lemma_idx_onto, Shape};

verus! {

/// State of a lattice point.
#[derive(Debug, Clone, Copy, PartialEq, Eq, Structural)]
pub enum Point {
    /// Material is present; the point participates in the solve.
    Solid,
    /// Cavity; segments are split around this point.
    Void,
}

/// A 3D lattice with a field of values of type `T` and a per-point state mask.
///
/// Flat storage is row-major with `x` fastest, then `y`, then `z`. Use
/// [`idx`](Self::idx) to map `(x, y, z)` to a flat position.
#[derive(Debug)]
pub struct Lattice<T> {
    shape: Shape,
    data: Vec<T>,
    points: Vec<Point>,
}

impl<T: Copy> Lattice<T> {
    /// The lattice's shape.
    pub closed spec fn shape_of(self) -> Shape {
        self.shape
    }

    /// The field, in flat row-major order.
    pub closed spec fn field(self) -> Seq<T> {
        self.data@
    }

    /// The state mask, in flat row-major order.
    pub closed spec fn states(self) -> Seq<Point> {
        self.points@
    }

    /// The shape is non-empty and its point count fits a `usize`, and both
    /// buffers hold one entry per point.
    pub open spec fn wf(self) -> bool {
        &&& self.shape_of().fits()
        &&& self.shape_of().spec_len() > 0
        &&& self.field().len() == self.shape_of().spec_len()
        &&& self.states().len() == self.shape_of().spec_len()
    }

    /// Flat position of `(x, y, z)`, when it lies inside the buffers.
    pub open spec fn holds(self, x: int, y: int, z: int) -> bool {
        0 <= self.shape_of().spec_idx(x, y, z) < self.shape_of().spec_len()
    }

    /// Constructs a lattice with a default field (zero, for numbers) and
    /// all points solid.
    ///
    /// The shape must have positive extent along every axis.
    pub fn new(shape: Shape) -> (l: Self) where T: Default
        requires
            shape.fits(),
            shape.spec_len() > 0,
        ensures
            l.wf(),
            l.shape_of() == shape,
            forall|i: int| 0 <= i < l.states().len() ==> l.states()[i] == Point::Solid,
            forall|i: int| 0 <= i < l.field().len() ==> #[trigger] l.field()[i] == l.field()[0],
            forall|i: int| 0 <= i < l.field().len() ==> call_ensures(T::default, (), #[trigger] l.field()[i]),
    {
        let n = shape.len();
        let zero = T::default();
        let mut data: Vec<T> = Vec::new();
        let mut points: Vec<Point> = Vec::new();
        for i in 0..n
            invariant
                data@.len() == i,
                points@.len() == i,
                call_ensures(T::default, (), zero),
                forall|j: int| 0 <= j < i ==> data@[j] == zero,
                forall|j: int| 0 <= j < i ==> points@[j] == Point::Solid,
        {
            data.push(zero);
            points.push(Point::Solid);
        }
        Self { shape, data, points }
    }

    /// The lattice's shape.
    pub fn shape(&self) -> (s: Shape)
        ensures
            s == self.shape_of(),
    {
        self.shape
    }

    /// Flat index of `(x, y, z)`.
    pub fn idx(&self, x: usize, y: usize, z: usize) -> (r: usize)
        requires
            self.wf(),
            self.shape_of().spec_idx(x as int, y as int, z as int) <= usize::MAX,
        ensures
            r == self.shape_of().spec_idx(x as int, y as int, z as int),
    {
        self.shape.idx(x, y, z)
    }

    /// Field value at `(x, y, z)`.
    pub fn value(&self, x: usize, y: usize, z: usize) -> (v: T)
        requires
            self.wf(),
            self.holds(x as int, y as int, z as int),
        ensures
            v == self.field()[self.shape_of().spec_idx(x as int, y as int, z as int)],
    {
        self.data[self.idx(x, y, z)]
    }

    /// Sets the field value at `(x, y, z)`.
    pub fn set(&mut self, x: usize, y: usize, z: usize, value: T)
        requires
            old(self).wf(),
            old(self).holds(x as int, y as int, z as int),
        ensures
            final(self).wf(),
            final(self).shape_of() == old(self).shape_of(),
            final(self).states() == old(self).states(),
            final(self).field() == old(self).field().update(
                old(self).shape_of().spec_idx(x as int, y as int, z as int),
                value,
            ),
    {
        let i = self.idx(x, y, z);
        self.data.set(i, value);
    }

    /// Fills the field with `value`.
    pub fn set_all(&mut self, value: T)
        requires
            old(self).wf(),
        ensures
            final(self).wf(),
            final(self).shape_of() == old(self).shape_of(),
            final(self).states() == old(self).states(),
            final(self).field() == Seq::new(old(self).field().len(), |i: int| value),
    {
        let n = self.data.len();
        for i in 0..n
            invariant
                n == self.data@.len(),
                self.shape == old(self).shape,
                self.points@ == old(self).points@,
                self.data@.len() == old(self).data@.len(),
                forall|j: int| 0 <= j < i ==> self.data@[j] == value,
        {
            self.data.set(i, value);
        }
        assert(self.data@ =~= Seq::new(old(self).field().len(), |i: int| value));
    }

    /// Fills the field from a closure over `(x, y, z)`.
    ///
    /// The closure is called once per point, `z` slowest and `x` fastest,
    /// and its result is stored at the point's flat index.
    pub fn set_from<F>(&mut self, f: F) where F: Fn(usize, usize, usize) -> T
        requires
            old(self).wf(),
            forall|x: usize, y: usize, z: usize|
                old(self).shape_of().contains(x as int, y as int, z as int) ==> f.requires(
                    (x, y, z),
                ),
        ensures
            final(self).wf(),
            final(self).shape_of() == old(self).shape_of(),
            final(self).states() == old(self).states(),
            forall|x: usize, y: usize, z: usize|
                old(self).shape_of().contains(x as int, y as int, z as int) ==> f.ensures(
                    (x, y, z),
                    #[trigger] final(self).field()[old(self).shape_of().spec_idx(
                        x as int,
                        y as int,
                        z as int,
                    )],
                ),
    {
        let (nx, ny, nz) = (self.shape.nx, self.shape.ny, self.shape.nz);
        let ghost shape = self.shape;
        let ghost a = nx as int;
        let ghost plane = shape.plane();
        let ghost len = shape.spec_len();
        assert(a > 0 && ny > 0 && nz > 0 && plane > 0) by (nonlinear_arith)
            requires
                len == a * ny * nz,
                plane == a * ny,
                len > 0,
                a >= 0,
                ny >= 0,
                nz >= 0,
        ;
        assert(0 * plane == 0);
        for z in 0..nz
            invariant
                self.shape == shape,
                self.points@ == old(self).points@,
                self.data@.len() == len,
                shape.fits(),
                len == shape.spec_len(),
                len > 0,
                nx == shape.nx,
                ny == shape.ny,
                nz == shape.nz,
                plane == shape.plane(),
                forall|x: usize, y: usize, z: usize|
                    shape.contains(x as int, y as int, z as int) ==> #[trigger] f.requires((x, y, z)),
                forall|i: int|
                    0 <= i < z * plane ==> f.ensures(Self::coords(shape, i), #[trigger] self.data@[i]),
        {
            assert(z * plane + 0 * nx == z * plane);
            for y in 0..ny
                invariant
                    self.shape == shape,
                    self.points@ == old(self).points@,
                    self.data@.len() == len,
                    shape.fits(),
                    len == shape.spec_len(),
                    len > 0,
                    0 <= z < nz,
                    nx == shape.nx,
                    ny == shape.ny,
                    nz == shape.nz,
                    plane == shape.plane(),
                    forall|x: usize, y: usize, z: usize|
                        shape.contains(x as int, y as int, z as int) ==> #[trigger] f.requires((x, y, z)),
                    forall|i: int|
                        0 <= i < z * plane + y * nx ==> f.ensures(Self::coords(shape, i), #[trigger] self.data@[i]),
            {
                assert(z * plane + y * nx + 0 == z * plane + y * nx);
                for x in 0..nx
                    invariant
                        self.shape == shape,
                        self.points@ == old(self).points@,
                        self.data@.len() == len,
                        shape.fits(),
                        len == shape.spec_len(),
                        len > 0,
                        0 <= z < nz,
                        0 <= y < ny,
                        nx == shape.nx,
                        ny == shape.ny,
                        nz == shape.nz,
                        plane == shape.plane(),
                        forall|x: usize, y: usize, z: usize|
                            shape.contains(x as int, y as int, z as int) ==> #[trigger] f.requires((x, y, z)),
                        forall|i: int|
                            0 <= i < z * plane + y * nx + x ==> f.ensures(Self::coords(shape, i), #[trigger] self.data@[i]),
                {
                    proof {
                        lemma_idx_in_bounds(shape, x as int, y as int, z as int);
                        lemma_idx_decompose(shape, x as int, y as int, z as int);
                    }
                    let i = self.shape.idx(x, y, z);
                    assert(i == z * plane + y * nx + x) by (nonlinear_arith)
                        requires
                            i == x + y * nx + z * plane,
                    ;
                    assert(Self::coords(shape, i as int) == (x, y, z));
                    let v = f(x, y, z);
                    self.data.set(i, v);
                }
                assert(z * plane + y * nx + nx == z * plane + (y + 1) * nx) by (nonlinear_arith);
            }
            assert(z * plane + ny * nx == (z + 1) * plane) by (nonlinear_arith)
                requires
                    plane == nx * ny,
            ;
        }
        assert forall|x: usize, y: usize, z: usize|
            shape.contains(x as int, y as int, z as int) implies f.ensures(
                (x, y, z),
                #[trigger] self.data@[shape.spec_idx(x as int, y as int, z as int)],
            ) by {
            lemma_idx_in_bounds(shape, x as int, y as int, z as int);
            lemma_idx_decompose(shape, x as int, y as int, z as int);
            assert(nz * plane == len) by (nonlinear_arith)
                requires
                    plane == nx * ny,
                    len == nx * ny * nz,
            ;
            assert(Self::coords(shape, shape.spec_idx(x as int, y as int, z as int)) == (x, y, z));
        }
    }

    /// The coordinates, as `usize` values, of flat index `i`.
    pub open spec fn coords(shape: Shape, i: int) -> (usize, usize, usize) {
        (
            (i % (shape.nx as int)) as usize,
            ((i / (shape.nx as int)) % (shape.ny as int)) as usize,
            (i / shape.plane()) as usize,
        )
    }

    /// The field, indexed as [`idx`](Self::idx).
    pub fn data(&self) -> (d: &[T])
        ensures
            d@ == self.field(),
    {
        self.data.as_slice()
    }

    /// Two disjoint borrows of the internal buffers, in the order
    /// `(data, points)`: the field may be written through the first while
    /// the state mask is read through the second.
    pub fn split(&mut self) -> (r: (&mut [T], &[Point]))
        requires
            old(self).wf(),
        ensures
            r.0@ == old(self).field(),
            r.1@ == old(self).states(),
            final(self).field() == final(r.0)@,
            final(r.0)@.len() == r.0@.len() ==> final(self).wf(),
            final(self).states() == old(self).states(),
            final(self).shape_of() == old(self).shape_of(),
    {
        (self.data.as_mut_slice(), self.points.as_slice())
    }

    /// State of the point at `(x, y, z)`.
    pub fn point(&self, x: usize, y: usize, z: usize) -> (p: Point)
        requires
            self.wf(),
            self.holds(x as int, y as int, z as int),
        ensures
            p == self.states()[self.shape_of().spec_idx(x as int, y as int, z as int)],
    {
        self.points[self.idx(x, y, z)]
    }

    /// Marks `(x, y, z)` as void.
    pub fn void(&mut self, x: usize, y: usize, z: usize)
        requires
            old(self).wf(),
            old(self).holds(x as int, y as int, z as int),
        ensures
            final(self).wf(),
            final(self).shape_of() == old(self).shape_of(),
            final(self).field() == old(self).field(),
            final(self).states() == old(self).states().update(
                old(self).shape_of().spec_idx(x as int, y as int, z as int),
                Point::Void,
            ),
    {
        let i = self.idx(x, y, z);
        self.points.set(i, Point::Void);
    }

    /// Marks `(x, y, z)` as solid.
    pub fn fill(&mut self, x: usize, y: usize, z: usize)
        requires
            old(self).wf(),
            old(self).holds(x as int, y as int, z as int),
        ensures
            final(self).wf(),
            final(self).shape_of() == old(self).shape_of(),
            final(self).field() == old(self).field(),
            final(self).states() == old(self).states().update(
                old(self).shape_of().spec_idx(x as int, y as int, z as int),
                Point::Solid,
            ),
    {
        let i = self.idx(x, y, z);
        self.points.set(i, Point::Solid);
    }
}

/// A write at one point of a lattice buffer is read back there and
/// leaves every other point of the lattice unchanged: what
/// [`Lattice::value`] and [`Lattice::point`] give after
/// [`Lattice::set`], [`Lattice::void`] or [`Lattice::fill`].
pub proof fn lemma_write_is_local<V>(
    shape: Shape,
    buffer: Seq<V>,
    x: int,
    y: int,
    z: int,
    v: V,
    x2: int,
    y2: int,
    z2: int,
)
    requires
        buffer.len() == shape.spec_len(),
        shape.contains(x, y, z),
        shape.contains(x2, y2, z2),
    ensures
        buffer.update(shape.spec_idx(x, y, z), v)[shape.spec_idx(x, y, z)] == v,
        (x2, y2, z2) != (x, y, z) ==> buffer.update(shape.spec_idx(x, y, z), v)[shape.spec_idx(
            x2,
            y2,
            z2,
        )] == buffer[shape.spec_idx(x2, y2, z2)],
{
    lemma_idx_in_bounds(shape, x, y, z);
    lemma_idx_in_bounds(shape, x2, y2, z2);
    if shape.spec_idx(x, y, z) == shape.spec_idx(x2, y2, z2) {
        super::layout::lemma_idx_injective(shape, x, y, z, x2, y2, z2);
    }
}

} // verus!
