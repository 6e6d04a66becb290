[package]
name = "diskspec"
version = "0.1.0"
edition = "2021"
publish = false

[dependencies]
clap = "2"
distinst = "*"
libc = "0.2"
pbr = "1"
