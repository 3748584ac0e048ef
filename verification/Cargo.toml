[package]
name = "tabular"
version = "0.1.0"
edition = "2021"
publish = false

[dependencies]
polars = { version = "*", features = ["lazy"] }
plotters = "*"
