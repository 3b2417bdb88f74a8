//! Boundary constraints and the passes over them.

pub mod boundary_constraint;
pub mod dirichlet;
pub mod neumann;
