//! The command interpreter.

pub mod dispatch;
pub mod external;
pub mod files;
pub mod laws;
pub mod listing;
pub mod names;
pub mod output;
