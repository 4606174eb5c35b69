[package]
name = "ribbit"
version = "0.1.0"
edition = "2021"
publish = false

[dependencies]
serde = { version = "1", features = ["derive"] }
serde_json = "1"
reqwest = { version = "0.12", default-features = false, features = ["blocking", "json", "multipart", "rustls-tls"] }
dirs = "5"
chrono = "0.4"
tokio = { version = "1", features = ["time"] }
rusqlite = { version = "0.31", features = ["bundled"] }
