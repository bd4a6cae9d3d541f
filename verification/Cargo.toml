[package]
name = "moonwave"
version = "0.1.0"
edition = "2021"
publish = false

[dependencies]
generational-arena = "0.2"
uuid = { version = "0.8", features = ["v4"] }
multimap = "0.8"
thiserror = "1"
cgmath = "0.18"
itertools = "0.10"
