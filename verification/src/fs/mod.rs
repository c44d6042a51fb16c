//! Files and directories.

pub mod file;
pub mod options;
pub mod read_dir;
