//! Waiting for sockets, and connecting them.

pub mod attempts;
pub mod connect;
pub mod polling;
pub mod transport;
