[package]
name = "mkfile"
version = "2.0.0"
edition = "2021"
publish = false

[dependencies]
regex = "1"
gntp = "*"
lazy_static = "1"
