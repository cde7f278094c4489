[package]
name = "spiralizer"
version = "0.1.0"
edition = "2021"
publish = false

[dependencies]
clap = "2"
image = { version = "0.23", default-features = false, features = ["png", "jpeg", "gif", "ico", "bmp"] }
memmap = "0.7"
pbr = "1"
tempfile = "3"
