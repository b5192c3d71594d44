[package]
name = "hplc"
version = "0.1.0"
edition = "2021"
publish = false

[dependencies]
iced = { version = "0.13", default-features = false, features = ["canvas", "tiny-skia"] }
plotters = { version = "0.3", default-features = false, features = ["svg_backend", "line_series", "point_series"] }
plotters-iced = "0.11"
