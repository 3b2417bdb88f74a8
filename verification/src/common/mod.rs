//! Geometric primitives shared by every element type.

pub mod edge;
pub mod field;
pub mod identity_map;
pub mod interfaces;
pub mod point;
pub mod scalar;
