[package]
name = "qrgen"
version = "0.1.0"
edition = "2021"
publish = false

[dependencies]
image = { version = "*", default-features = false, features = ["png"] }
serde = { version = "*", features = ["derive"] }
serde_json = "*"

[dev-dependencies]
qrcode = { version = "*", default-features = false }
