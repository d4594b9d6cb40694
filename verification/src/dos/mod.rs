//! Running DOS programs: memory, interrupts and protected-mode services.

pub mod api;
pub mod arena;
pub mod bios;
pub mod descriptors;
pub mod dpmi;
pub mod files;
pub mod laws;
pub mod loader;
pub mod machine;
pub mod protected;
pub mod reply;
pub mod running;
