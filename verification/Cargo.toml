[package]
name = "hercules"
version = "0.1.0"
edition = "2021"
publish = false

[dependencies]
smolprng = "*"
sprs = "*"
clarabel = "*"
ndarray = "*"
