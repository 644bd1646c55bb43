[package]
name = "wayscriber_images"
version = "0.1.0"
edition = "2021"
publish = false

[dependencies]
cairo-rs = "=0.22.9"
gif = "=0.14.2"
jpeg-decoder = { version = "=0.3.2", default-features = false, features = ["platform_independent"] }
png = "=0.18.1"
