//! Locks for tasks.

pub mod barrier;
pub mod mutex;
pub mod rwlock;
pub mod semaphore;
pub mod together;

pub use barrier::{Barrier, BarrierWaitResult};
pub use mutex::Mutex;
pub use rwlock::RwLock;
pub use semaphore::Semaphore;
