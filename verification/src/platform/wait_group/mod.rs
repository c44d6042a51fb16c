//! Waiting for a group of tasks to be done.

pub mod wait;

pub use wait::WaitGroup;
