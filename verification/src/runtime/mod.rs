//! Running tasks.

pub mod blocking;
pub mod task;
