[package]
name = "cynthia"
version = "0.0.6"
edition = "2021"
publish = false

[dependencies]
crossbeam-queue = "0.3"
memchr = "2"
libc = "0.2"
once_cell = "1"
futures-core = "0.3"
futures-io = "0.3"
pin-project-lite = "0.2"
signal-hook = "0.3"
stable_deref_trait = "1"
