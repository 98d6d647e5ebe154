[package]
name = "langpatch"
version = "0.1.0"
edition = "2021"
publish = false

[dependencies]
anyhow = "1"
byteorder = "1"
crossterm = "*"
hex = "0.4"
inquire = "*"
varint-rs = "2"
