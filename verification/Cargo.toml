[package]
name = "refline"
version = "0.1.0"
edition = "2021"
publish = false

[dependencies]
fastrand = "2"
serde = { version = "1", features = ["derive"] }
ron = "*"
walkdir = "2"
directories-next = "2"
image = { version = "*", default-features = false, features = ["png", "jpeg", "webp"] }
