//! The decisions of the standalone Thomas solver kernel.
//!
//! This kernel sizes its scratch buffer for `n` entries, one more than the
//! kernel in [`thomas`] needs.

pub mod thomas;

use vstd::prelude::*;


verus! {

/// Errors returned by the standalone Thomas solver.
#[derive(Debug, PartialEq, Eq, Structural)]
pub enum ThomasError {
    /// Slice lengths don't match the system size. Required for size `n`:
    /// `a`/`c` = `n-1`, `b`/`d`/`x` = `n`, `scratch` >= `n`, `n > 0`.
    InvalidDimensions,
    /// The matrix is not strictly diagonally dominant (by row or by column).
    UnstableSystem,
}

/// The buffer lengths of a system of `n = d_len` unknowns fit this
/// kernel: `a` and `c` hold `n - 1` entries, `b`, `d` and `x` hold `n`,
/// and `scratch` holds at least `n`.
pub open spec fn lengths_fit(
    a_len: int,
    b_len: int,
    c_len: int,
    d_len: int,
    x_len: int,
    scratch_len: int,
) -> bool {
    &&& d_len > 0
    &&& a_len == d_len - 1
    &&& b_len == d_len
    &&& c_len == d_len - 1
    &&& x_len == d_len
    &&& scratch_len >= d_len
}

/// The lengths that fit a system are fixed by its size: two sets of buffer
/// lengths that both fit a system of `d_len` unknowns have the same `a`,
/// `b`, `c` and `x` lengths, `a` and `c` one shorter than `d`, `b` and `x`
/// as long as `d`.
pub proof fn lemma_lengths_fit_unique(
    a1: int,
    b1: int,
    c1: int,
    x1: int,
    s1: int,
    a2: int,
    b2: int,
    c2: int,
    x2: int,
    s2: int,
    d_len: int,
)
    requires
        lengths_fit(a1, b1, c1, d_len, x1, s1),
        lengths_fit(a2, b2, c2, d_len, x2, s2),
    ensures
        a1 == a2,
        b1 == b2,
        c1 == c2,
        x1 == x2,
        a1 + 1 == d_len,
        b1 == d_len,
        c1 + 1 == d_len,
        x1 == d_len,
{
}

/// Checks the buffer lengths of a system before any computation, and
/// returns its size `n`; [`ThomasError::InvalidDimensions`] exactly when
/// they do not fit (see [`lengths_fit`]).
pub fn check_dimensions(
    a_len: usize,
    b_len: usize,
    c_len: usize,
    d_len: usize,
    x_len: usize,
    scratch_len: usize,
) -> (r: Result<usize, ThomasError>)
    ensures
        r is Ok <==> lengths_fit(
            a_len as int,
            b_len as int,
            c_len as int,
            d_len as int,
            x_len as int,
            scratch_len as int,
        ),
        r matches Ok(n) ==> {
            &&& n == d_len
            &&& n > 0
            &&& a_len + 1 == n
            &&& b_len == n
            &&& c_len + 1 == n
            &&& x_len == n
            &&& scratch_len >= n
        },
        d_len > 0 && a_len + 1 == d_len && b_len == d_len && c_len + 1 == d_len && x_len == d_len
            && scratch_len >= d_len ==> r is Ok,
        r is Err ==> r == Err::<usize, ThomasError>(ThomasError::InvalidDimensions),
{
    let x_num = d_len;
    if x_num == 0 || a_len != x_num - 1 || b_len != x_num || c_len != x_num - 1 || x_len != x_num
        || scratch_len < x_num {
        return Err(ThomasError::InvalidDimensions);
    }
    Ok(x_num)
}

} // verus!
