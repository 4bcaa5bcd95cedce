//! Managing component instances.

pub mod framework;
pub mod laws;
