[package]
name = "occult_core"
version = "0.1.0"
edition = "2021"
publish = false

[dependencies]
uuid = { version = "*", features = ["v4"] }
rand = "*"
chrono = "*"
serde = { version = "*", features = ["derive"] }
serde_yml = "*"
dirs-next = "*"
