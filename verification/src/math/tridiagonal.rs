//! The decisions of the tridiagonal solver for `A·x = d`.
//!
//! The Thomas algorithm runs only on systems of consistent size that are
//! strictly diagonally dominant, by row or by column. This module decides
//! both conditions, and the size of a request to a preallocated workspace,
//! from plain values: buffer lengths, and the per-row outcome of the
//! dominance comparisons.

use vstd::prelude::*;

use crate::error::Error;

verus! {

/// The buffer lengths of a system of `n = d_len` unknowns fit together:
/// `a` and `c` hold `n - 1` off-diagonal entries, `b`, `d` and `x` hold
/// `n` entries, and `scratch` holds at least `n - 1`.
pub open spec fn lengths_fit(
    a_len: int,
    b_len: int,
    c_len: int,
    d_len: int,
    x_len: int,
    scratch_len: int,
) -> bool {
    &&& d_len > 0
    &&& a_len == d_len - 1
    &&& b_len == d_len
    &&& c_len == d_len - 1
    &&& x_len == d_len
    &&& scratch_len >= d_len - 1
}

/// The lengths that fit a system are fixed by its size: two sets of buffer
/// lengths that both fit a system of `d_len` unknowns have the same `a`,
/// `b`, `c` and `x` lengths, `a` and `c` one shorter than `d`, `b` and `x`
/// as long as `d`.
pub proof fn lemma_lengths_fit_unique(
    a1: int,
    b1: int,
    c1: int,
    x1: int,
    s1: int,
    a2: int,
    b2: int,
    c2: int,
    x2: int,
    s2: int,
    d_len: int,
)
    requires
        lengths_fit(a1, b1, c1, d_len, x1, s1),
        lengths_fit(a2, b2, c2, d_len, x2, s2),
    ensures
        a1 == a2,
        b1 == b2,
        c1 == c2,
        x1 == x2,
        a1 + 1 == d_len,
        b1 == d_len,
        c1 + 1 == d_len,
        x1 == d_len,
{
}

/// Checks the buffer lengths of a system before any computation, and
/// returns its size `n`.
///
/// Returns [`Error::InvalidDimensions`] exactly when the lengths do not
/// fit together (see [`lengths_fit`]), `n == 0` included.
pub fn check_dimensions(
    a_len: usize,
    b_len: usize,
    c_len: usize,
    d_len: usize,
    x_len: usize,
    scratch_len: usize,
) -> (r: Result<usize, Error>)
    ensures
        r is Ok <==> lengths_fit(
            a_len as int,
            b_len as int,
            c_len as int,
            d_len as int,
            x_len as int,
            scratch_len as int,
        ),
        r matches Ok(n) ==> {
            &&& n == d_len
            &&& n > 0
            &&& a_len + 1 == n
            &&& b_len == n
            &&& c_len + 1 == n
            &&& x_len == n
            &&& scratch_len + 1 >= n
        },
        d_len > 0 && a_len + 1 == d_len && b_len == d_len && c_len + 1 == d_len && x_len == d_len
            && scratch_len + 1 >= d_len ==> r is Ok,
        r is Err ==> r == Err::<usize, Error>(Error::InvalidDimensions),
{
    let n = d_len;
    if n == 0 || a_len != n - 1 || b_len != n || c_len != n - 1 || x_len != n || scratch_len < n
        - 1 {
        return Err(Error::InvalidDimensions);
    }
    Ok(n)
}

/// Every entry of `s` holds.
pub open spec fn all_hold(s: Seq<bool>) -> bool {
    forall|i: int| 0 <= i < s.len() ==> #[trigger] s[i]
}

/// The running state of the dominance check, scanning the rows of a
/// system in order: whether every row so far is strictly dominant, and
/// whether every column so far is.
pub struct DominanceScan {
    row_dominance: bool,
    col_dominance: bool,
}

impl DominanceScan {
    /// Every row scanned so far is strictly diagonally dominant.
    pub closed spec fn rows_hold(self) -> bool {
        self.row_dominance
    }

    /// Every column scanned so far is strictly diagonally dominant.
    pub closed spec fn cols_hold(self) -> bool {
        self.col_dominance
    }

    /// A scan that has seen no row yet.
    pub fn new() -> (s: Self)
        ensures
            s.rows_hold(),
            s.cols_hold(),
    {
        DominanceScan { row_dominance: true, col_dominance: true }
    }

    /// Row dominance is still possible, so the next row's comparison
    /// matters.
    pub fn row_pending(&self) -> (r: bool)
        ensures
            r == self.rows_hold(),
    {
        self.row_dominance
    }

    /// Column dominance is still possible, so the next column's
    /// comparison matters.
    pub fn col_pending(&self) -> (r: bool)
        ensures
            r == self.cols_hold(),
    {
        self.col_dominance
    }

    /// Records the outcome of the next row's and column's comparison.
    ///
    /// Fails with [`Error::UnstableSystem`] exactly when, after it, neither
    /// every row nor every column so far holds; an outcome passed for a
    /// kind that has already failed is not looked at.
    pub fn record(&mut self, row_holds: bool, col_holds: bool) -> (r: Result<(), Error>)
        ensures
            final(self).rows_hold() == (old(self).rows_hold() && row_holds),
            final(self).cols_hold() == (old(self).cols_hold() && col_holds),
            r is Ok <==> final(self).rows_hold() || final(self).cols_hold(),
            r is Err ==> r == Err::<(), Error>(Error::UnstableSystem),
    {
        if self.row_dominance {
            self.row_dominance = row_holds;
        }
        if self.col_dominance {
            self.col_dominance = col_holds;
        }
        if !self.row_dominance && !self.col_dominance {
            return Err(Error::UnstableSystem);
        }
        Ok(())
    }
}

/// Decides the dominance check from the outcome of the comparison of each
/// row, `row_holds[i]`, and of each column, `col_holds[i]`, scanning the
/// rows in order.
///
/// The scan stops at the first index by which both a row and a column have
/// failed. The system is accepted exactly when it is strictly diagonally
/// dominant by row or by column, and refused with
/// [`Error::UnstableSystem`] otherwise.
pub fn dominance_verdict(row_holds: &[bool], col_holds: &[bool]) -> (r: Result<(), Error>)
    requires
        row_holds@.len() == col_holds@.len(),
    ensures
        r is Ok <==> all_hold(row_holds@) || all_hold(col_holds@),
        r is Ok <==> (forall|i: int| 0 <= i < row_holds@.len() ==> #[trigger] row_holds@[i]) || (
        forall|i: int| 0 <= i < col_holds@.len() ==> #[trigger] col_holds@[i]),
        r is Err ==> r == Err::<(), Error>(Error::UnstableSystem),
{
    let n = row_holds.len();
    let mut scan = DominanceScan::new();
    for i in 0..n
        invariant
            n == row_holds@.len(),
            n == col_holds@.len(),
            scan.rows_hold() <==> forall|j: int| 0 <= j < i ==> #[trigger] row_holds@[j],
            scan.cols_hold() <==> forall|j: int| 0 <= j < i ==> #[trigger] col_holds@[j],
            scan.rows_hold() || scan.cols_hold(),
    {
        let step = scan.record(row_holds[i], col_holds[i]);
        if step.is_err() {
            return Err(Error::UnstableSystem);
        }
    }
    Ok(())
}

/// Checks a request for a system of `n` unknowns against a workspace
/// sized for `max_len`, and returns the number `n - 1` of off-diagonal
/// entries.
///
/// Returns [`Error::InvalidDimensions`] exactly when `n == 0` or
/// `n > max_len`.
pub fn check_request(n: usize, max_len: usize) -> (r: Result<usize, Error>)
    ensures
        r is Ok <==> 0 < n <= max_len,
        r matches Ok(off) ==> off == n - 1,
        r is Err ==> r == Err::<usize, Error>(Error::InvalidDimensions),
{
    if n == 0 || n > max_len {
        return Err(Error::InvalidDimensions);
    }
    Ok(n - 1)
}

/// Number of off-diagonal entries of the largest system a workspace
/// sized for `max_len` unknowns holds: `max_len - 1`, or 0 for 0.
pub fn off_diagonal_len(max_len: usize) -> (off: usize)
    ensures
        max_len == 0 ==> off == 0,
        max_len > 0 ==> off == max_len - 1,
{
    max_len.saturating_sub(1)
}

} // verus!
