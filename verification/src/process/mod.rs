//! Processes: how they are started, and what becomes of them.

pub mod child;
pub mod command;
