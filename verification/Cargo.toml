[package]
name = "atto8"
version = "0.1.0"
edition = "2021"
publish = false

[dependencies]
console = "*"
path-clean = "*"
