[package]
name = "yolo_post"
version = "0.1.0"
edition = "2021"
publish = false

[dependencies]
anyhow = "*"
clap = { version = "*", features = ["derive"] }
image = "*"
ndarray = "*"
regex = "*"
