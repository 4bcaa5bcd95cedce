//! A log-structured merge tree's layers, and the merging of their items.

pub mod laws;
pub mod merge;
pub mod types;
