[package]
name = "dialect-rust"
version = "0.1.0"
edition = "2021"
publish = false

[dependencies]
melior = "*"
mlir-sys = "*"
