//! Tasks and how they take turns.

pub mod scheduling;
pub mod state;
pub mod vm;
