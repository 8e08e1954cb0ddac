[package]
name = "ordered_pipeline"
version = "0.1.0"
edition = "2021"
publish = false

[dependencies]
crossbeam-channel = "0.5"
crossbeam-utils = "0.8"
bzip2-sys = "0.1"
raster = "*"
opencv = "*"
futures = "0.1"
tokio = "0.1"
rayon = "1"
pipeliner = "*"
