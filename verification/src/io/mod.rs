//! Files of the kernel, and operations that wait.

pub mod fatfs;
pub mod provider;
pub mod sysfs;
