[package]
name = "viewer_core"
version = "0.1.0"
edition = "2021"
publish = false

[dependencies]
anyhow = "1"
async-channel = "2"
futures-lite = "2"
hayro = "0.9"
image = { version = "0.25", default-features = false, features = ["png", "jpeg", "gif", "webp", "bmp", "tiff", "ico", "pnm"] }
kurbo = "0.13"
log = "0.4"
parking_lot = "0.12"
time = { version = "0.3", features = ["local-offset"] }
