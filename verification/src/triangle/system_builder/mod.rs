//! The triangulation and the passes that assemble its linear system.

pub mod assembler_utils;
pub mod builder;
pub mod contribution;
pub mod domain;
pub mod external;
pub mod heat_transfer_problem;
pub mod internal;
pub mod sparsity;
