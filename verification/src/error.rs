//! The crate-wide error type.
//!
//! Every fallible function in `cryotherm` returns [`Error`]. Variants are
//! split by origin:
//!
//! - [`Error::InvalidDimensions`]: the caller passed arguments whose
//!   lengths or shapes don't fit together.
//! - [`Error::UnstableSystem`]: the input is well-formed but numerically
//!   unsuitable for the requested computation.
//!
//! The enum is `#[non_exhaustive]`: new variants may be added in minor
//! versions, so downstream `match` expressions must include a wildcard
//! arm.

use vstd::prelude::*;

verus! {

/// The error type returned by fallible functions in this crate.
#[non_exhaustive]
#[derive(Debug, Clone, Copy, PartialEq, Eq, Structural)]
pub enum Error {
    /// A slice length or lattice shape did not match what the function
    /// required.
    ///
    /// Raised before any computation begins, so no output buffer is
    /// modified when this variant is returned.
    InvalidDimensions,
    /// The tridiagonal system is not strictly diagonally dominant, by row
    /// or by column, so the Thomas algorithm is not guaranteed to be
    /// numerically stable.
    ///
    /// Returned before any buffer is written.
    UnstableSystem,
}

impl Error {
    /// The human-readable description of the error.
    pub open spec fn message(self) -> Seq<char> {
        match self {
            Error::InvalidDimensions => "incompatible dimensions"@,
            Error::UnstableSystem => "tridiagonal system is not strictly diagonally dominant"@,
        }
    }

    /// Renders the error as its human-readable description.
    pub fn to_string(&self) -> (s: String)
        ensures
            s@ == self.message(),
    {
        match self {
            Error::InvalidDimensions => String::from_str("incompatible dimensions"),
            Error::UnstableSystem => String::from_str(
                "tridiagonal system is not strictly diagonally dominant",
            ),
        }
    }
}

} // verus!
