[package]
name = "arcode"
version = "0.1.0"
edition = "2021"
publish = false

[dependencies]
bitbit = "*"

[dev-dependencies]
fenwick = "*"
