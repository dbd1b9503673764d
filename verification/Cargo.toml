[package]
name = "libblur"
version = "0.1.0"
edition = "2021"
publish = false

[dependencies]
num-traits = "0.2"
rayon = "1"
half = "2"
image = { version = "0.25", default-features = false, features = ["jpeg", "png"] }
colorutils-rs = "*"
