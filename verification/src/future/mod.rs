//! Futures, and reading and writing without blocking.

pub mod block_on;
pub mod future;
pub mod swap;
pub mod timeout;
