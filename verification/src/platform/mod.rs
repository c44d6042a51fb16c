//! Queues, locks and events.

pub mod byte_pool;
pub mod event;
pub mod lock;
pub mod mutex;
pub mod queue;
pub mod wait_group;
pub mod waker;
