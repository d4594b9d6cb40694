//! The FAT file system: disk access, cluster chains, directories and files.

pub mod dir;
pub mod disk;
pub mod entry;
pub mod file;
pub mod laws;
pub mod path;
pub mod stamp;
pub mod storage;
pub mod table;
pub mod walks;
