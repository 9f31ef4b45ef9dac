[package]
name = "magic_pocket"
version = "0.1.0"
edition = "2021"
publish = false

[dependencies]
arboard = "3"
chrono = { version = "0.4", features = ["serde"] }
image = { version = "0.25", default-features = false, features = ["png"] }
serde = { version = "1", features = ["derive"] }
serde_json = "1"
sha2 = "0.10"
uuid = { version = "1", features = ["v4"] }
