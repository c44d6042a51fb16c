//! A pool of buffers that are used again.

pub mod allocate;
pub mod pool;

pub use allocate::{Allocate, Realloc};
pub use pool::{ByteBuffer, BytePool};
