//! Driver programs.

pub mod e1000;
pub mod floppy;
pub mod laws;
pub mod sb16;
