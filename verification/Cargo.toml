[package]
name = "chart_pipeline"
version = "0.1.0"
edition = "2021"
publish = false

[dependencies]
csv = "1"
rand = "0.8"
plotters = "0.3"
