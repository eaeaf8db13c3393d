[package]
name = "searus"
version = "0.1.0"
edition = "2021"
publish = false

[dependencies]
strsim = "0.11"
unicode-segmentation = "1"
serde = { version = "1", features = ["derive"] }
serde_json = "1"
