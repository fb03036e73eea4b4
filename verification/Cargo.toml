[package]
name = "slide_match"
version = "0.1.0"
edition = "2021"
publish = false

[dependencies]
image = { version = "0.25", default-features = false, features = ["png", "jpeg", "gif", "bmp", "webp"] }
imageproc = { version = "0.25", default-features = false }
napi = "2"
napi-derive = "2"
