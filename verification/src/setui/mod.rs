//! The settings service.

pub mod base;
pub mod environment;
pub mod id_set;
pub mod laws;
