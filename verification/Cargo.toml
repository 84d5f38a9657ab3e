[package]
name = "envault"
version = "0.1.0"
edition = "2021"
publish = false

[dependencies]
chrono = "*"
rusqlite = { version = "*", features = ["bundled"] }
dirs = "*"
serde = { version = "*", features = ["derive"] }
thiserror = "*"
