//! Records that describe a heat transfer problem.

use vstd::prelude::*;

verus! {

/// Whether the problem is solved for its steady state or in time.
#[derive(Clone, Copy, Debug, PartialEq, Eq, Structural)]
pub enum DynamicState {
    SteadyState,
    Transient,
}

/// A Dirichlet constraint, by its number.
#[derive(Clone, Copy, Debug, PartialEq, Eq, Structural)]
pub struct DirichletConstraint {
    pub number: usize,
}

/// A Neumann constraint, by its number.
#[derive(Clone, Copy, Debug, PartialEq, Eq, Structural)]
pub struct NeumannConstraint {
    pub number: usize,
}

/// An external field, by its number.
#[derive(Clone, Copy, Debug, PartialEq, Eq, Structural)]
pub struct ExternalField {
    pub number: usize,
}

} // verus!
