[package]
name = "glean_core"
version = "0.1.0"
edition = "2021"
publish = false

[dependencies]
rkv = "0.19"
time = "0.1"
dispatch = "0.2"

[dev-dependencies]
tempfile = "3"
