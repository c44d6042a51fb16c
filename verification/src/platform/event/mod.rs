//! Notifying those who wait for something to happen.

pub mod listener;

pub use listener::{Event, EventListener};
