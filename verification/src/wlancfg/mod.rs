//! The client side of wireless networking policy.

pub mod laws;
pub mod state_machine;
pub mod types;
