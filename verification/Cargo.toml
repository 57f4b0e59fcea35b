[package]
name = "triskelion"
version = "0.1.0"
edition = "2021"
publish = false

[dependencies]
flume = "0.11"
libc = "0.2"
rustc-hash = "2"
