[package]
name = "gator"
version = "0.1.0"
edition = "2021"
publish = false

[dependencies]
axum = "*"
colored = "*"
indicatif = "*"
reqwest = { version = "*", default-features = false, features = ["json"] }
serde = { version = "*", features = ["derive"] }
serde_json = "*"
tokio = { version = "*", features = ["full"] }
