//! Small programs.

pub mod gfx;
pub mod laws;
pub mod netcat;
pub mod tonegen;
