//! The passes over the triangles and over the edges between them.

pub mod flux_artificial;
pub mod flux_natural;
pub mod interface;
pub mod jump_penalty;
pub mod mass;
