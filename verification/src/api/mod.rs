//! The interface between programs and the kernel.

pub mod compat;
pub mod io;
pub mod syscall;
pub mod termios;
