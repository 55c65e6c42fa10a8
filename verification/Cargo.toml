[package]
name = "nnbfl_preview"
version = "0.1.0"
edition = "2021"
publish = false

[dependencies]
szs = "0.3.7"
tomolib = "1.7.0"
