//! Numerical kernels. No domain knowledge.

pub mod tridiagonal;
