[package]
name = "hdr2plot"
version = "0.1.0"
edition = "2021"
publish = false

[dependencies]
base64 = "0.13"
flate2 = "1"
clap = { version = "3", features = ["derive"] }
itertools = "0.12"
csaps = "*"
plotters = { version = "0.3", default-features = false, features = ["svg_backend", "line_series", "area_series"] }
