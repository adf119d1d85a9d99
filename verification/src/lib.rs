//! Finite-difference discretisation of a steady-state scalar field over a
//! triangular lattice with fixed values on its three edges.
//!
//! The crate numbers the unknowns of the lattice, classifies every lattice
//! coordinate, and assembles the five-point-stencil system `A u = b` in exact
//! form: integer coefficients and symbolic boundary terms.
//!
//! - [`lattice`] holds the numbering scheme and its laws,
//! - [`mat_gen`] the lookup tables and the assembly of the system,
//! - [`solver`] the shape checks and the column substitution that the direct
//!   solvers are built on.

pub mod lattice;
pub mod mat_gen;
pub mod solver;
