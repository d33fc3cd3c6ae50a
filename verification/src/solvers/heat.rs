//! The traversal plan of the implicit heat-equation driver.
//!
//! Each time step performs three directional sweeps (X, then Y, then Z).
//! Within a sweep, lines parallel to the sweep axis are independent
//! tridiagonal systems, split into separate systems at
//! [`Point::Void`]. This module computes, from the state mask alone, the
//! segments that a sweep solves: on each line, the maximal runs of solid
//! points, in order.

use vstd::prelude::*;

use crate::domain::layout::lemma_idx_in_bounds;
use crate::domain::{Axis, Point, Shape};

verus! {

/// A contiguous run of solid points along a lattice line.
///
/// Position `k` of the run, for `k < len`, is the flat index
/// `base + (start + k) * stride`.
#[derive(Debug, Clone, Copy, PartialEq, Eq, Structural)]
pub struct Segment {
    /// Flat index of the first point of the line.
    pub base: usize,
    /// Position along the line of the first point of the run.
    pub start: usize,
    /// Number of points of the run.
    pub len: usize,
    /// Flat distance between neighbouring points of the line.
    pub stride: usize,
}

impl Segment {
    /// Flat index of position `k` of the run.
    pub open spec fn spec_position(self, k: int) -> int {
        self.base + (self.start + k) * self.stride
    }

    /// Flat index of position `k` of the run.
    pub fn position(&self, k: usize) -> (r: usize)
        requires
            self.start + k <= usize::MAX,
            self.spec_position(k as int) <= usize::MAX,
        ensures
            r == self.spec_position(k as int),
    {
        let t = self.start + k;
        assert(t * self.stride >= 0) by (nonlinear_arith);
        self.base + t * self.stride
    }
}

/// Flat index `i` exists and the point there is solid.
pub open spec fn solid_at(points: Seq<Point>, i: int) -> bool {
    0 <= i < points.len() && points[i] == Point::Solid
}

/// Position `t` of the line from `base` with step `stride` is solid.
pub open spec fn solid_on_line(points: Seq<Point>, base: int, stride: int, t: int) -> bool {
    solid_at(points, base + t * stride)
}

/// `seg` is a maximal run of solid points of the line of `n` positions
/// from `base` with step `stride`: it is non-empty, inside the line, all
/// solid, and bounded on each side by the line's end or a non-solid point.
pub open spec fn is_run(seg: Segment, points: Seq<Point>, base: int, stride: int, n: int) -> bool {
    &&& seg.base == base
    &&& seg.stride == stride
    &&& seg.len > 0
    &&& seg.start + seg.len <= n
    &&& forall|t: int|
        seg.start <= t < seg.start + seg.len ==> #[trigger] solid_on_line(points, base, stride, t)
    &&& seg.start == 0 || !solid_on_line(points, base, stride, seg.start - 1)
    &&& seg.start + seg.len == n || !solid_on_line(points, base, stride, seg.start + seg.len)
}

/// Position `t` lies in one of the runs `segs`.
pub open spec fn covered(segs: Seq<Segment>, t: int) -> bool {
    exists|j: int| 0 <= j < segs.len() && #[trigger] segs[j].start <= t < segs[j].start + segs[j].len
}

/// `segs` are all the maximal runs of solid points of the line, in
/// increasing order of position.
pub open spec fn line_runs(segs: Seq<Segment>, points: Seq<Point>, base: int, stride: int, n: int) -> bool {
    &&& forall|j: int| 0 <= j < segs.len() ==> is_run(#[trigger] segs[j], points, base, stride, n)
    &&& forall|j1: int, j2: int|
        #![trigger segs[j1], segs[j2]]
        0 <= j1 < j2 < segs.len() ==> segs[j1].start + segs[j1].len < segs[j2].start
    &&& forall|t: int|
        0 <= t < n && #[trigger] solid_on_line(points, base, stride, t) ==> covered(segs, t)
}

/// Two maximal runs of the same line that share a position are the same run.
proof fn lemma_runs_sharing_a_position_agree(
    s1: Segment,
    s2: Segment,
    points: Seq<Point>,
    base: int,
    stride: int,
    n: int,
    t: int,
)
    requires
        is_run(s1, points, base, stride, n),
        is_run(s2, points, base, stride, n),
        s1.start <= t < s1.start + s1.len,
        s2.start <= t < s2.start + s2.len,
    ensures
        s1 == s2,
{
    if s1.start < s2.start {
        assert(solid_on_line(points, base, stride, s2.start - 1));
    }
    if s2.start < s1.start {
        assert(solid_on_line(points, base, stride, s1.start - 1));
    }
    if s1.start + s1.len < s2.start + s2.len {
        assert(solid_on_line(points, base, stride, s1.start + s1.len));
    }
    if s2.start + s2.len < s1.start + s1.len {
        assert(solid_on_line(points, base, stride, s2.start + s2.len));
    }
}

/// Every run of one list of all the maximal runs of a line is a run of
/// any other such list.
proof fn lemma_run_is_found(
    segs1: Seq<Segment>,
    segs2: Seq<Segment>,
    points: Seq<Point>,
    base: int,
    stride: int,
    n: int,
    j: int,
) -> (j2: int)
    requires
        line_runs(segs1, points, base, stride, n),
        line_runs(segs2, points, base, stride, n),
        0 <= j < segs1.len(),
    ensures
        0 <= j2 < segs2.len(),
        segs2[j2] == segs1[j],
{
    let s1 = segs1[j];
    assert(is_run(s1, points, base, stride, n));
    assert(solid_on_line(points, base, stride, s1.start as int));
    assert(covered(segs2, s1.start as int));
    let j2 = choose|j2: int|
        0 <= j2 < segs2.len() && #[trigger] segs2[j2].start <= s1.start < segs2[j2].start + segs2[j2].len;
    assert(is_run(segs2[j2], points, base, stride, n));
    lemma_runs_sharing_a_position_agree(s1, segs2[j2], points, base, stride, n, s1.start as int);
    j2
}

/// Two lists of all the maximal runs of a line agree on their first `j` runs.
proof fn lemma_runs_agree_upto(
    segs1: Seq<Segment>,
    segs2: Seq<Segment>,
    points: Seq<Point>,
    base: int,
    stride: int,
    n: int,
    j: int,
)
    requires
        line_runs(segs1, points, base, stride, n),
        line_runs(segs2, points, base, stride, n),
        0 <= j <= segs1.len(),
        j <= segs2.len(),
    ensures
        forall|i: int| 0 <= i < j ==> segs1[i] == segs2[i],
    decreases j,
{
    if j > 0 {
        lemma_runs_agree_upto(segs1, segs2, points, base, stride, n, j - 1);
        let i = j - 1;
        let i2 = lemma_run_is_found(segs1, segs2, points, base, stride, n, i);
        let i1 = lemma_run_is_found(segs2, segs1, points, base, stride, n, i);
        if i2 < i {
            assert(segs1[i2] == segs2[i2]);
            assert(segs1[i2].start + segs1[i2].len < segs1[i].start);
        } else if i2 > i {
            assert(segs2[i].start + segs2[i].len < segs2[i2].start);
            if i1 < i {
                assert(segs1[i1] == segs2[i1]);
                assert(segs2[i1].start + segs2[i1].len < segs2[i].start);
            } else if i1 > i {
                assert(segs1[i].start + segs1[i].len < segs1[i1].start);
            }
        }
    }
}

/// The maximal runs of solid points of a line, in increasing order, are
/// determined by the state mask: two lists that are both all of them are
/// equal.
pub proof fn lemma_line_runs_unique(
    segs1: Seq<Segment>,
    segs2: Seq<Segment>,
    points: Seq<Point>,
    base: int,
    stride: int,
    n: int,
)
    requires
        line_runs(segs1, points, base, stride, n),
        line_runs(segs2, points, base, stride, n),
    ensures
        segs1 == segs2,
{
    if segs1.len() > segs2.len() {
        let m = segs2.len() as int;
        lemma_runs_agree_upto(segs1, segs2, points, base, stride, n, m);
        let j2 = lemma_run_is_found(segs1, segs2, points, base, stride, n, m);
        assert(segs1[j2] == segs2[j2]);
        assert(segs1[j2].start + segs1[j2].len < segs1[m].start);
    } else if segs2.len() > segs1.len() {
        let m = segs1.len() as int;
        lemma_runs_agree_upto(segs2, segs1, points, base, stride, n, m);
        let j1 = lemma_run_is_found(segs2, segs1, points, base, stride, n, m);
        assert(segs2[j1] == segs1[j1]);
        assert(segs2[j1].start + segs2[j1].len < segs2[m].start);
    } else {
        lemma_runs_agree_upto(segs1, segs2, points, base, stride, n, segs1.len() as int);
    }
    assert(segs1 =~= segs2);
}

/// The maximal runs of solid points along the line of `len` positions
/// that starts at flat index `base` and steps by `stride`, in increasing
/// order of position.
pub fn line_segments(points: &[Point], base: usize, len: usize, stride: usize) -> (segs: Vec<Segment>)
    requires
        len > 0 ==> base + (len - 1) * stride < points@.len(),
    ensures
        line_runs(segs@, points@, base as int, stride as int, len as int),
{
    let ghost pts = points@;
    let ghost b = base as int;
    let ghost s = stride as int;
    let plen = points.len();
    let mut segs: Vec<Segment> = Vec::new();
    let mut seg_start: usize = 0;
    let mut seg_len: usize = 0;
    for k in 0..len
        invariant
            pts == points@,
            plen == points@.len(),
            b == base,
            s == stride,
            len > 0 ==> base + (len - 1) * stride < points@.len(),
            seg_len <= k,
            seg_len > 0 ==> seg_start + seg_len == k,
            seg_len > 0 ==> forall|t: int|
                seg_start <= t < k ==> #[trigger] solid_on_line(pts, b, s, t),
            seg_len > 0 ==> (seg_start == 0 || !solid_on_line(pts, b, s, seg_start - 1)),
            seg_len == 0 ==> (k == 0 || !solid_on_line(pts, b, s, k - 1)),
            forall|j: int|
                0 <= j < segs@.len() ==> {
                    &&& is_run(#[trigger] segs@[j], pts, b, s, len as int)
                    &&& segs@[j].start + segs@[j].len < k
                    &&& (seg_len > 0 ==> segs@[j].start + segs@[j].len < seg_start)
                },
            forall|j1: int, j2: int|
                #![trigger segs@[j1], segs@[j2]]
                0 <= j1 < j2 < segs@.len() ==> segs@[j1].start + segs@[j1].len < segs@[j2].start,
            forall|t: int|
                0 <= t < k && #[trigger] solid_on_line(pts, b, s, t) ==> covered(segs@, t) || (
                seg_len > 0 && seg_start <= t),
    {
        assert(0 <= k * stride <= (len - 1) * stride) by (nonlinear_arith)
            requires
                0 <= k < len,
        ;
        let i = base + k * stride;
        if points[i] == Point::Solid {
            assert(solid_on_line(pts, b, s, k as int));
            if seg_len == 0 {
                seg_start = k;
            }
            seg_len += 1;
        } else if seg_len > 0 {
            assert(!solid_on_line(pts, b, s, k as int));
            let seg = Segment { base, start: seg_start, len: seg_len, stride };
            let ghost old_segs = segs@;
            segs.push(seg);
            assert(is_run(seg, pts, b, s, len as int));
            assert forall|t: int|
                0 <= t <= k && #[trigger] solid_on_line(pts, b, s, t) implies covered(segs@, t) by {
                if seg_start <= t < k {
                    assert(segs@[old_segs.len() as int] == seg);
                } else if t < seg_start {
                    let j = choose|j: int|
                        0 <= j < old_segs.len() && #[trigger] old_segs[j].start <= t < old_segs[j].start
                            + old_segs[j].len;
                    assert(segs@[j] == old_segs[j]);
                }
            }
            seg_len = 0;
        } else {
            assert(!solid_on_line(pts, b, s, k as int));
        }
    }
    if seg_len > 0 {
        let seg = Segment { base, start: seg_start, len: seg_len, stride };
        let ghost old_segs = segs@;
        segs.push(seg);
        assert(is_run(seg, pts, b, s, len as int));
        assert forall|t: int|
            0 <= t < len && #[trigger] solid_on_line(pts, b, s, t) implies covered(segs@, t) by {
            if seg_start <= t {
                assert(segs@[old_segs.len() as int] == seg);
            } else {
                let j = choose|j: int|
                    0 <= j < old_segs.len() && #[trigger] old_segs[j].start <= t < old_segs[j].start
                        + old_segs[j].len;
                assert(segs@[j] == old_segs[j]);
            }
        }
    }
    segs
}

/// The point at position `k` along `axis` on the line with coordinate `b`
/// along `axis.next()` and `c` along `axis.next().next()`, as `(x, y, z)`.
pub open spec fn axis_point(axis: Axis, k: int, b: int, c: int) -> (int, int, int) {
    match axis {
        Axis::X => (k, b, c),
        Axis::Y => (c, k, b),
        Axis::Z => (b, c, k),
    }
}

/// Flat index of the first point of the line of a sweep along `axis`
/// with coordinate `b` along `axis.next()` and `c` along `axis.next().next()`.
pub open spec fn line_base(shape: Shape, axis: Axis, b: int, c: int) -> int {
    b * shape.spec_stride(axis.next()) + c * shape.spec_stride(axis.next().next())
}

/// Number of the line `(b, c)` in the order of a sweep: `c` slowest, `b`
/// fastest, among `b_len` values of `b`.
pub open spec fn line_number(b_len: int, b: int, c: int) -> int {
    c * b_len + b
}

/// `plan` holds, for every line of a sweep along `axis` in sweep order,
/// the maximal runs of solid points of that line in increasing order.
pub open spec fn is_sweep_plan(shape: Shape, points: Seq<Point>, axis: Axis, plan: Seq<Vec<Segment>>) -> bool {
    let b_len = shape.spec_dim(axis.next());
    let c_len = shape.spec_dim(axis.next().next());
    &&& plan.len() == c_len * b_len
    &&& forall|b: int, c: int|
        0 <= b < b_len && 0 <= c < c_len ==> line_runs(
            #[trigger] plan[line_number(b_len, b, c)]@,
            points,
            line_base(shape, axis, b, c),
            shape.spec_stride(axis),
            shape.spec_dim(axis),
        )
}

/// Position `k` of line `(b, c)` of a sweep along `axis` is the flat index
/// of the point with those coordinates.
pub proof fn lemma_line_position(shape: Shape, axis: Axis, k: int, b: int, c: int)
    ensures
        line_base(shape, axis, b, c) + k * shape.spec_stride(axis) == shape.spec_idx(
            axis_point(axis, k, b, c).0,
            axis_point(axis, k, b, c).1,
            axis_point(axis, k, b, c).2,
        ),
{
}

/// The first point of every line of a sweep has a flat index that fits a
/// `usize`, even when the lines are empty.
proof fn lemma_line_base_fits(shape: Shape, axis: Axis, b: int, c: int)
    requires
        shape.fits(),
        0 <= b < shape.spec_dim(axis.next()),
        0 <= c < shape.spec_dim(axis.next().next()),
    ensures
        0 <= line_base(shape, axis, b, c) <= usize::MAX,
{
    let (nx, ny, nz) = (shape.nx as int, shape.ny as int, shape.nz as int);
    let plane = shape.plane();
    assert(plane >= 0 && b * nx >= 0 && c * nx >= 0 && b * plane >= 0 && c * plane >= 0) by (nonlinear_arith)
        requires
            plane == nx * ny,
            b >= 0,
            c >= 0,
            nx >= 0,
            ny >= 0,
    ;
    if shape.spec_dim(axis) > 0 {
        let p = axis_point(axis, 0, b, c);
        lemma_line_position(shape, axis, 0, b, c);
        lemma_idx_in_bounds(shape, p.0, p.1, p.2);
    } else {
        match axis {
            Axis::X => {
                assert(b * nx + c * plane == 0) by (nonlinear_arith)
                    requires
                        nx == 0,
                        plane == nx * ny,
                ;
            },
            Axis::Y => {
                assert(b * plane == 0) by (nonlinear_arith)
                    requires
                        ny == 0,
                        plane == nx * ny,
                ;
            },
            Axis::Z => {
                assert(b + c * nx < plane) by (nonlinear_arith)
                    requires
                        0 <= b < nx,
                        0 <= c < ny,
                        plane == nx * ny,
                {
                    assert(c * nx <= (ny - 1) * nx);
                }
            },
        }
    }
}

/// Plans a sweep along `axis`: for each line parallel to `axis`, with the
/// coordinate along `axis.next().next()` slowest and the one along
/// `axis.next()` fastest, the maximal runs of solid points of the line.
pub fn sweep_segments(shape: Shape, points: &[Point], axis: Axis) -> (plan: Vec<Vec<Segment>>)
    requires
        shape.fits(),
        points@.len() == shape.spec_len(),
    ensures
        is_sweep_plan(shape, points@, axis, plan@),
{
    let stride = shape.stride(axis);
    let len = shape.dim(axis);
    let o = axis.orthogonal();
    let b_axis = o[0];
    let c_axis = o[1];
    let b_len = shape.dim(b_axis);
    let b_stride = shape.stride(b_axis);
    let c_len = shape.dim(c_axis);
    let c_stride = shape.stride(c_axis);
    let mut plan: Vec<Vec<Segment>> = Vec::new();
    assert(0 * b_len == 0);
    for c in 0..c_len
        invariant
            shape.fits(),
            points@.len() == shape.spec_len(),
            stride == shape.spec_stride(axis),
            len == shape.spec_dim(axis),
            b_axis == axis.next(),
            c_axis == axis.next().next(),
            b_len == shape.spec_dim(b_axis),
            c_len == shape.spec_dim(c_axis),
            b_stride == shape.spec_stride(b_axis),
            c_stride == shape.spec_stride(c_axis),
            plan@.len() == c * b_len,
            forall|b: int, c2: int|
                0 <= b < b_len && 0 <= c2 < c ==> line_runs(
                    #[trigger] plan@[line_number(b_len as int, b, c2)]@,
                    points@,
                    line_base(shape, axis, b, c2),
                    stride as int,
                    len as int,
                ),
    {
        for b in 0..b_len
            invariant
                shape.fits(),
                points@.len() == shape.spec_len(),
                stride == shape.spec_stride(axis),
                len == shape.spec_dim(axis),
                b_axis == axis.next(),
                c_axis == axis.next().next(),
                b_len == shape.spec_dim(b_axis),
                c_len == shape.spec_dim(c_axis),
                b_stride == shape.spec_stride(b_axis),
                c_stride == shape.spec_stride(c_axis),
                0 <= c < c_len,
                plan@.len() == c * b_len + b,
                forall|b2: int, c2: int|
                    0 <= b2 < b_len && 0 <= c2 <= c && line_number(b_len as int, b2, c2) < c * b_len + b
                        ==> line_runs(
                        #[trigger] plan@[line_number(b_len as int, b2, c2)]@,
                        points@,
                        line_base(shape, axis, b2, c2),
                        stride as int,
                        len as int,
                    ),
        {
            proof {
                lemma_line_base_fits(shape, axis, b as int, c as int);
                assert(b * b_stride >= 0 && c * c_stride >= 0) by (nonlinear_arith);
            }
            let base = b * b_stride + c * c_stride;
            if len > 0 {
                let ghost p = axis_point(axis, len - 1, b as int, c as int);
                proof {
                    lemma_line_position(shape, axis, len - 1, b as int, c as int);
                    lemma_idx_in_bounds(shape, p.0, p.1, p.2);
                }
            }
            let line = line_segments(points, base, len, stride);
            let ghost old_plan = plan@;
            plan.push(line);
            assert(line_number(b_len as int, b as int, c as int) == c * b_len + b);
            assert forall|b2: int, c2: int|
                0 <= b2 < b_len && 0 <= c2 <= c && line_number(b_len as int, b2, c2) < c * b_len + b + 1
                    implies line_runs(
                    #[trigger] plan@[line_number(b_len as int, b2, c2)]@,
                    points@,
                    line_base(shape, axis, b2, c2),
                    stride as int,
                    len as int,
                ) by {
                if line_number(b_len as int, b2, c2) == c * b_len + b {
                    assert(b2 == b && c2 == c) by (nonlinear_arith)
                        requires
                            c2 * b_len + b2 == c * b_len + b,
                            0 <= b2 < b_len,
                            0 <= b < b_len,
                    ;
                } else {
                    assert(plan@[line_number(b_len as int, b2, c2)] == old_plan[line_number(b_len as int, b2, c2)]);
                }
            }
        }
        assert forall|b2: int, c2: int|
            0 <= b2 < b_len && 0 <= c2 < c + 1 implies line_number(b_len as int, b2, c2) < c * b_len + b_len
            by {
            assert(c2 * b_len + b2 < c * b_len + b_len) by (nonlinear_arith)
                requires
                    0 <= b2 < b_len,
                    0 <= c2 <= c,
            ;
        }
        assert(c * b_len + b_len == (c + 1) * b_len) by (nonlinear_arith);
    }
    plan
}

/// Position `k` of segment `j` of line `l` of `plan` exists and is the
/// flat index `i`.
pub open spec fn touches(plan: Seq<Vec<Segment>>, l: int, j: int, k: int, i: int) -> bool {
    &&& 0 <= l < plan.len()
    &&& 0 <= j < plan[l]@.len()
    &&& 0 <= k < plan[l]@[j].len
    &&& plan[l]@[j].spec_position(k) == i
}

/// Line `l` of a sweep with `b_len` lines per value of `c` is line
/// `(l % b_len, l / b_len)`.
proof fn lemma_line_number_inverse(b_len: int, c_len: int, l: int)
    requires
        b_len >= 0,
        c_len >= 0,
        0 <= l < c_len * b_len,
    ensures
        b_len > 0,
        0 <= l % b_len < b_len,
        0 <= l / b_len < c_len,
        line_number(b_len, l % b_len, l / b_len) == l,
{
    assert(b_len > 0) by (nonlinear_arith)
        requires
            0 <= l < c_len * b_len,
            b_len >= 0,
            c_len >= 0,
    ;
    let b = l % b_len;
    let c = l / b_len;
    vstd::arithmetic::div_mod::lemma_fundamental_div_mod(l, b_len);
    assert(c * b_len == b_len * c) by (nonlinear_arith);
    assert(0 <= c < c_len) by (nonlinear_arith)
        requires
            l == b_len * c + b,
            0 <= b < b_len,
            0 <= l < c_len * b_len,
    ;
}

/// Where a position of a planned segment lies: line `l` is line
/// `(l % b_len, l / b_len)`, and the position is the flat index of the
/// point with those coordinates and the segment position along `axis`.
proof fn lemma_touch_coords(shape: Shape, points: Seq<Point>, axis: Axis, plan: Seq<Vec<Segment>>, l: int, j: int, k: int)
    requires
        shape.fits(),
        points.len() == shape.spec_len(),
        is_sweep_plan(shape, points, axis, plan),
        0 <= l < plan.len(),
        0 <= j < plan[l]@.len(),
        0 <= k < plan[l]@[j].len,
    ensures
        ({
            let b_len = shape.spec_dim(axis.next());
            let b = l % b_len;
            let c = l / b_len;
            let t = plan[l]@[j].start + k;
            let p = axis_point(axis, t, b, c);
            &&& b_len > 0
            &&& 0 <= b < b_len
            &&& 0 <= c < shape.spec_dim(axis.next().next())
            &&& line_number(b_len, b, c) == l
            &&& 0 <= t < shape.spec_dim(axis)
            &&& shape.contains(p.0, p.1, p.2)
            &&& plan[l]@[j].spec_position(k) == shape.spec_idx(p.0, p.1, p.2)
            &&& line_runs(plan[l]@, points, line_base(shape, axis, b, c), shape.spec_stride(axis), shape.spec_dim(axis))
        }),
{
    let b_len = shape.spec_dim(axis.next());
    let c_len = shape.spec_dim(axis.next().next());
    lemma_line_number_inverse(b_len, c_len, l);
    let b = l % b_len;
    let c = l / b_len;
    let segs = plan[l]@;
    assert(line_runs(segs, points, line_base(shape, axis, b, c), shape.spec_stride(axis), shape.spec_dim(axis)));
    let seg = segs[j];
    assert(is_run(seg, points, line_base(shape, axis, b, c), shape.spec_stride(axis), shape.spec_dim(axis)));
    let t = seg.start + k;
    lemma_line_position(shape, axis, t, b, c);
}

/// The plan of a sweep is determined by the shape, the state mask and the
/// axis: two plans of the same sweep have the same lines, each with the
/// same runs.
pub proof fn lemma_sweep_plan_unique(
    shape: Shape,
    points: Seq<Point>,
    axis: Axis,
    plan1: Seq<Vec<Segment>>,
    plan2: Seq<Vec<Segment>>,
    l: int,
)
    requires
        is_sweep_plan(shape, points, axis, plan1),
        is_sweep_plan(shape, points, axis, plan2),
        0 <= l < plan1.len(),
    ensures
        plan1.len() == plan2.len(),
        plan1[l]@ == plan2[l]@,
{
    let b_len = shape.spec_dim(axis.next());
    let c_len = shape.spec_dim(axis.next().next());
    lemma_line_number_inverse(b_len, c_len, l);
    let b = l % b_len;
    let c = l / b_len;
    lemma_line_runs_unique(
        plan1[line_number(b_len, b, c)]@,
        plan2[line_number(b_len, b, c)]@,
        points,
        line_base(shape, axis, b, c),
        shape.spec_stride(axis),
        shape.spec_dim(axis),
    );
}

/// Every planned segment is a non-empty system no longer than the largest
/// extent of the shape, so a workspace sized for
/// [`Shape::max_axis`] accepts it (see
/// [`crate::math::tridiagonal::check_request`]).
pub proof fn lemma_planned_segments_fit_workspace(
    shape: Shape,
    points: Seq<Point>,
    axis: Axis,
    plan: Seq<Vec<Segment>>,
    l: int,
    j: int,
    max_len: int,
)
    requires
        shape.fits(),
        points.len() == shape.spec_len(),
        is_sweep_plan(shape, points, axis, plan),
        0 <= l < plan.len(),
        0 <= j < plan[l]@.len(),
        max_len >= shape.nx,
        max_len >= shape.ny,
        max_len >= shape.nz,
    ensures
        0 < plan[l]@[j].len <= max_len,
{
    let b_len = shape.spec_dim(axis.next());
    lemma_line_number_inverse(b_len, shape.spec_dim(axis.next().next()), l);
    let b = l % b_len;
    let c = l / b_len;
    assert(is_run(plan[l]@[j], points, line_base(shape, axis, b, c), shape.spec_stride(axis), shape.spec_dim(axis)));
}

/// A sweep touches only solid points: every position of every planned
/// segment is the flat index of a solid point inside the lattice.
pub proof fn lemma_sweep_touches_only_solid(
    shape: Shape,
    points: Seq<Point>,
    axis: Axis,
    plan: Seq<Vec<Segment>>,
    l: int,
    j: int,
    k: int,
)
    requires
        shape.fits(),
        points.len() == shape.spec_len(),
        is_sweep_plan(shape, points, axis, plan),
        0 <= l < plan.len(),
        0 <= j < plan[l]@.len(),
        0 <= k < plan[l]@[j].len,
    ensures
        solid_at(points, plan[l]@[j].spec_position(k)),
{
    lemma_touch_coords(shape, points, axis, plan, l, j, k);
    let b_len = shape.spec_dim(axis.next());
    let b = l % b_len;
    let c = l / b_len;
    let seg = plan[l]@[j];
    assert(is_run(seg, points, line_base(shape, axis, b, c), shape.spec_stride(axis), shape.spec_dim(axis)));
    assert(solid_on_line(points, line_base(shape, axis, b, c), shape.spec_stride(axis), seg.start + k));
}

/// A sweep touches every solid point: each solid point inside the lattice
/// is a position of some planned segment.
pub proof fn lemma_sweep_touches_every_solid(
    shape: Shape,
    points: Seq<Point>,
    axis: Axis,
    plan: Seq<Vec<Segment>>,
    i: int,
)
    requires
        shape.fits(),
        points.len() == shape.spec_len(),
        is_sweep_plan(shape, points, axis, plan),
        solid_at(points, i),
    ensures
        exists|l: int, j: int, k: int| touches(plan, l, j, k, i),
{
    crate::domain::layout::lemma_idx_onto(shape, i);
    let a = shape.nx as int;
    let x = i % a;
    let y = (i / a) % (shape.ny as int);
    let z = i / shape.plane();
    let (k, b, c) = match axis {
        Axis::X => (x, y, z),
        Axis::Y => (y, z, x),
        Axis::Z => (z, x, y),
    };
    let b_len = shape.spec_dim(axis.next());
    let c_len = shape.spec_dim(axis.next().next());
    let l = line_number(b_len, b, c);
    assert(0 <= l < c_len * b_len) by (nonlinear_arith)
        requires
            l == c * b_len + b,
            0 <= b < b_len,
            0 <= c < c_len,
    {
        assert(c * b_len <= (c_len - 1) * b_len);
    }
    let base = line_base(shape, axis, b, c);
    let stride = shape.spec_stride(axis);
    lemma_line_position(shape, axis, k, b, c);
    assert(axis_point(axis, k, b, c) == (x, y, z));
    assert(solid_on_line(points, base, stride, k));
    let segs = plan[l]@;
    assert(line_runs(segs, points, base, stride, shape.spec_dim(axis)));
    assert(covered(segs, k));
    let j = choose|j: int| 0 <= j < segs.len() && #[trigger] segs[j].start <= k < segs[j].start + segs[j].len;
    assert(is_run(segs[j], points, base, stride, shape.spec_dim(axis)));
    assert(touches(plan, l, j, k - segs[j].start, i));
}

/// A sweep touches each point at most once: two positions of planned
/// segments at the same flat index are the same position of the same
/// segment of the same line.
pub proof fn lemma_sweep_touches_once(
    shape: Shape,
    points: Seq<Point>,
    axis: Axis,
    plan: Seq<Vec<Segment>>,
    i: int,
    l1: int,
    j1: int,
    k1: int,
    l2: int,
    j2: int,
    k2: int,
)
    requires
        shape.fits(),
        points.len() == shape.spec_len(),
        is_sweep_plan(shape, points, axis, plan),
        touches(plan, l1, j1, k1, i),
        touches(plan, l2, j2, k2, i),
    ensures
        l1 == l2,
        j1 == j2,
        k1 == k2,
{
    lemma_touch_coords(shape, points, axis, plan, l1, j1, k1);
    lemma_touch_coords(shape, points, axis, plan, l2, j2, k2);
    let b_len = shape.spec_dim(axis.next());
    let (b1, c1, t1) = (l1 % b_len, l1 / b_len, plan[l1]@[j1].start + k1);
    let (b2, c2, t2) = (l2 % b_len, l2 / b_len, plan[l2]@[j2].start + k2);
    let p1 = axis_point(axis, t1, b1, c1);
    let p2 = axis_point(axis, t2, b2, c2);
    crate::domain::layout::lemma_idx_injective(shape, p1.0, p1.1, p1.2, p2.0, p2.1, p2.2);
    assert(t1 == t2 && b1 == b2 && c1 == c2);
    assert(l1 == l2);
    let segs = plan[l1]@;
    if j1 < j2 {
        assert(segs[j1].start + segs[j1].len < segs[j2].start);
    } else if j2 < j1 {
        assert(segs[j2].start + segs[j2].len < segs[j1].start);
    }
}

} // verus!
