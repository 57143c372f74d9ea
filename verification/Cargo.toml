[package]
name = "jagged_array"
version = "0.1.0"
edition = "2021"

[dependencies]
smallvec = "*"
