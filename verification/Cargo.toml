[package]
name = "wm"
version = "0.1.0"
edition = "2021"
publish = false

[dependencies]
anyhow = "1"
home = "0.5"
tracing = "0.1"
uuid = "1"
