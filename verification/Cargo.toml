[package]
name = "stable_fragmented_buffer"
version = "0.1.0"
edition = "2021"
publish = false

[dependencies]
libc = "*"
parking_lot = "*"
thiserror = "*"
