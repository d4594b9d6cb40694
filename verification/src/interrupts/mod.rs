//! Interrupts: the table of the processor, and the lines of the devices.

pub mod idt;
pub mod pic;
