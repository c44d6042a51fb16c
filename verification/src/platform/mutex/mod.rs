//! A lock for threads.

pub mod mutex;

pub use mutex::Mutex;
