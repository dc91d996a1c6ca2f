[package]
name = "bitsliced_op"
version = "0.1.0"
edition = "2021"
publish = false

[dependencies]
wide = "*"
