[package]
name = "aumiao"
version = "0.1.0"
edition = "2021"
publish = false

[dependencies]
serde_json = "=1.0.151"
serde = { version = "=1.0.229", features = ["derive"] }
reqwest = { version = "=0.12.28", default-features = false, features = ["json", "multipart", "cookies"] }
tokio = { version = "=1.53.2", features = ["rt", "time", "macros", "fs", "io-util"] }
futures = "=0.3.34"
parking_lot = "=0.12.5"
chrono = { version = "=0.4.45", default-features = false, features = ["clock"] }
