//! Networking.

pub mod address;
pub mod device;
pub mod dns;
pub mod laws;
pub mod listen;
pub mod tcp;
