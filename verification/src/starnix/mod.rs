//! The address space of a Linux process.

pub mod laws;
pub mod memory_manager;
pub mod range_map;
