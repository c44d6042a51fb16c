//! Those who sleep until there is work.

pub mod sleeper;

pub use sleeper::Sleeper;
