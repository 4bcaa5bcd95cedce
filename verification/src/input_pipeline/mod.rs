//! Turning reports from input devices into events.

pub mod input_device;
pub mod laws;
