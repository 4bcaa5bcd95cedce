//! Serving directories.

pub mod io1;
pub mod laws;
