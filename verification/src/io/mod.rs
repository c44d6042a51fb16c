//! Input and output.

pub mod attempt;
pub mod error;
pub mod reactor;
pub mod source;
pub mod stream;
pub mod timer;
pub mod timers;
pub mod worker;

pub use error::{Error, ErrorKind};
pub use timer::Timer;
