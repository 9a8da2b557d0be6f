[package]
name = "epsh"
version = "0.1.0"
edition = "2021"
publish = false

[dependencies]
libc = "0.2"
rustix = { version = "1", features = ["process", "fs"] }
