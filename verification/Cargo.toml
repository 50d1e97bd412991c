[package]
name = "bencher_core"
version = "0.1.0"
edition = "2021"
publish = false

[dependencies]
uuid = { version = "1", features = ["v4"] }
chrono = "0.4"
serde = { version = "1", features = ["derive"] }
serde_json = "1"
camino = "1"
jsonwebtoken = "8"
slog = "2"
slog-term = "2"
oso = "0.27"
