[package]
name = "dws"
version = "0.1.0"
edition = "2021"
publish = false

[dependencies]
crossbeam-channel = "*"
text_io = "*"

[dev-dependencies]
rand = "*"
