//! Heat transport in frozen and thawing ground.
//!
//! The verified core of an implicit finite-difference heat solver on a 3D
//! lattice with cavities: the lattice layout and its index arithmetic, the
//! lattice container itself, the decisions of the tridiagonal kernel, and the
//! line-segment plan that the directional sweeps of the solver follow.

mod error;

pub mod domain;
pub mod geotherm_core;
pub mod math;
pub mod solvers;

pub use domain::{Axis, Lattice, Point, Shape};
pub use error::Error;
