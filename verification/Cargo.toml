[package]
name = "moments"
version = "0.1.0"
edition = "2021"
publish = false

[dependencies]
num-traits = "*"
polars-arrow = "*"
polars-utils = "*"
