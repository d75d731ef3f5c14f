[package]
name = "itty_bitty"
version = "0.1.0"
edition = "2021"
publish = false

[dependencies]
bitvec = "1"
clap = { version = "4", features = ["derive"] }
libc = "0.2"
memmap2 = "0.9"
num-bigint = "0.4"
