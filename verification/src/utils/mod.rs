//! Tools.

pub mod cache_align;
pub mod colo;
pub mod parallel;
pub mod rander;
pub mod random;
pub mod read_buf;

pub use colo::Colo;
pub use rander::Rander;
