//! The state of a task, and those who wait for it.

pub mod header;
pub mod layout;
pub mod runnable;
pub mod state;

pub use runnable::Runnable;
