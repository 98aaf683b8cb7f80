[package]
name = "txtr"
version = "0.1.0"
edition = "2021"
publish = false

[dependencies]
image = { version = "*", default-features = false, features = ["png", "jpeg"] }
docopt = "1"
serde = { version = "1", features = ["derive"] }
