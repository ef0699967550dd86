[package]
name = "packsight"
version = "0.1.0"
edition = "2021"
publish = false

[dependencies]
uuid = { version = "1", features = ["serde"] }
serde = { version = "1", features = ["derive"] }
serde_json = "1"
serde_path_to_error = "0.1"
serde_millis = "0.1"
chrono = { version = "0.4", features = ["serde"] }
thiserror = "2"
