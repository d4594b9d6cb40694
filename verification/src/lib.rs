//! Verified core of a small DOS-compatible operating system.

pub mod api;
pub mod bits;
pub mod boot;
pub mod bytes;
pub mod command;
pub mod complaints;
pub mod config;
pub mod console;
pub mod dos;
pub mod drivers;
pub mod fat;
pub mod hardware;
pub mod interrupts;
pub mod io;
pub mod log;
pub mod net;
pub mod programs;
pub mod starting;
pub mod task;
pub mod text;
pub mod time;
pub mod words;
