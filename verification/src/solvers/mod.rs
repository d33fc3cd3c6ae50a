//! Time-step drivers.
//!
//! Each submodule plans a scheme that advances a [`crate::domain::Lattice`]
//! forward in time using the numerical kernels in [`crate::math`].

pub mod heat;
