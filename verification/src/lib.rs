//! Assembly of the symmetric interior penalty discontinuous Galerkin system
//! for the steady heat equation on a planar triangulation, with linear basis
//! functions.
//!
//! The library owns the bookkeeping of the method: the geometric primitives,
//! the triangulation with its edge adjacency and its numbering of unknowns,
//! the boundary constraints, and the six assembly passes. Every vertex of
//! every triangle has an unknown of its own, so the system of `n` triangles
//! has `3 n` unknowns.
//!
//! All numbers are exact: a coordinate, a boundary value or the penalty
//! weight is a [`common::scalar::Scalar`], a finite double precision number
//! in decomposed form. The integrals themselves are not evaluated here. A
//! pass yields a list of
//! [`Contribution`](triangle::system_builder::contribution::Contribution)s,
//! each of which names an integrand of the catalogue with its arguments, the
//! factor it is multiplied by, the matrix it is added to and the index map
//! from the entries of the local block to the entries of that matrix.
//! Evaluating the integrands in floating point and adding the blocks up gives
//! the system matrix and the right-hand side.
//!
//! A triangulation is built by inserting triangles into a
//! [`Domain`](triangle::system_builder::domain::Domain) and putting
//! constraints on edges of its boundary;
//! [`build`](triangle::system_builder::builder::build) then gives the blocks
//! of its system.

pub mod common;
pub mod triangle;
