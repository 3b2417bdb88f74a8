//! Linear triangular elements and the assembly of their system.

pub mod element;
pub mod system_builder;
