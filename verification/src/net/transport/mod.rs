//! Addresses, and what is bound and connected to them.

pub mod addr;
