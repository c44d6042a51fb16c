//! Blocking work, done in threads of its own.

pub mod executor;
pub mod pipe;
pub mod unblock;

pub use unblock::Unblock;
