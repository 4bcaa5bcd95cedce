//! Analyzing how components are put together.

pub mod component_model;
pub mod component_tree;
pub mod laws;
