//! Decisions of the solver for tridiagonal linear systems using the
//! Thomas algorithm.

use vstd::prelude::*;

use crate::math::tridiagonal::lengths_fit;

verus! {

/// Errors returned by the Thomas solver.
#[derive(Debug, PartialEq, Eq, Structural)]
pub enum ThomasError {
    /// Slice lengths don't match the system size. Required for size `n`:
    /// `a`/`c` = `n-1`, `b`/`d`/`x` = `n`, `scratch` >= `n-1`, `n > 0`.
    InvalidDimensions,
    /// The matrix is not strictly diagonally dominant (by row or by column),
    /// so the algorithm is not guaranteed to be numerically stable.
    UnstableSystem,
}

/// Checks the buffer lengths of a system before anything is written, and
/// returns its size `n`; [`ThomasError::InvalidDimensions`] exactly when
/// they do not fit (see [`lengths_fit`]).
pub fn check_dimensions(
    a_len: usize,
    b_len: usize,
    c_len: usize,
    d_len: usize,
    x_len: usize,
    scratch_len: usize,
) -> (r: Result<usize, ThomasError>)
    ensures
        r is Ok <==> lengths_fit(
            a_len as int,
            b_len as int,
            c_len as int,
            d_len as int,
            x_len as int,
            scratch_len as int,
        ),
        r matches Ok(n) ==> {
            &&& n == d_len
            &&& n > 0
            &&& a_len + 1 == n
            &&& b_len == n
            &&& c_len + 1 == n
            &&& x_len == n
            &&& scratch_len + 1 >= n
        },
        d_len > 0 && a_len + 1 == d_len && b_len == d_len && c_len + 1 == d_len && x_len == d_len
            && scratch_len + 1 >= d_len ==> r is Ok,
        r is Err ==> r == Err::<usize, ThomasError>(ThomasError::InvalidDimensions),
{
    let n = d_len;
    if n == 0 || a_len != n - 1 || b_len != n || c_len != n - 1 || x_len != n || scratch_len < n
        - 1 {
        return Err(ThomasError::InvalidDimensions);
    }
    Ok(n)
}

} // verus!
