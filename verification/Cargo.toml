[package]
name = "zip_plus"
version = "0.1.0"
edition = "2021"
publish = false

[dependencies]
crypto-bigint = { version = "0.7", features = ["alloc"] }
itertools = "0.14"
num-traits = "0.2"
rayon = "1"
thiserror = "2"
