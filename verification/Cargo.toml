[package]
name = "bitnames"
version = "0.1.0"
edition = "2021"
publish = false

[dependencies]
heed = "0.11"

[dev-dependencies]
tempfile = "3"
