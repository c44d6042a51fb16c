//! The sequential core of an asynchronous runtime.

pub mod fs;
pub mod future;
pub mod io;
pub mod net;
pub mod platform;
pub mod process;
pub mod runtime;
pub mod task;
pub mod utils;
