//! Devices that the kernel drives itself.

pub mod com;
pub mod serial;
