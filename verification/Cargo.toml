[package]
name = "ether"
version = "0.1.0"
edition = "2021"
publish = false

[dependencies]
crossbeam = "0.8"
pnet = "*"
pretty-hex = "*"
rand = "0.8"
