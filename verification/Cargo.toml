[package]
name = "pi_kiosk"
version = "0.1.0"
edition = "2021"
publish = false

[dependencies]
argon2 = { version = "=0.5.3", features = ["std"] }
chrono = { version = "0.4", default-features = false, features = ["clock", "std"] }
serde = { version = "=1.0.229", features = ["derive"] }
serde_json = "=1.0.154"
tokio = { version = "=1.54.1", features = ["rt-multi-thread", "macros", "net", "io-util", "process", "time", "fs", "sync"] }
tokio-serial = { version = "5", default-features = false }
uuid = { version = "1", features = ["v4"] }
