[package]
name = "linux-rtic"
version = "0.1.0"
edition = "2021"
publish = false

[dependencies]
heapless = "0.7"
futex-queue = "*"
pcp-mutex = "*"
libc = "0.2"
ctrlc = "3"
lazy_static = "1"
rtic-core = "1"
rtic-syntax = "1"
proc-macro2 = "1"
quote = "1"
syn = { version = "1", features = ["full"] }
