[package]
name = "medea"
version = "0.1.0"
edition = "2021"
publish = false

[dependencies]
rust-argon2 = "*"
subtle = "*"
serde = { version = "*", features = ["derive"] }
serde_json = "*"
