[package]
name = "rsc"
version = "1.0.8"
edition = "2021"
publish = false

[dependencies]
chrono = "0.4"
libc = "0.2"
