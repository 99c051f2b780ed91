//! The error model and the structural paths used in diagnostics.

pub mod error;
pub mod path;
