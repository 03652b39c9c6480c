[package]
name = "perf_harness"
version = "0.1.0"
edition = "2021"
publish = false

[dependencies]
libc = "0.2"
mach = "0.3"
once_cell = "1"
rand = "0.8"
