[package]
name = "esclusa-gate"
version = "0.1.0"
edition = "2021"
publish = false

[dependencies]
axum = "0.8"
chrono = "0.4"
deadpool-postgres = { version = "0.14", features = ["rt_tokio_1"] }
hex = "0.4"
hmac = "0.12"
redis = { version = "0.27", features = ["aio", "tokio-comp", "connection-manager"] }
serde = { version = "1", features = ["derive"] }
serde_json = "1"
sha2 = "0.10"
tokio = { version = "1", features = ["full"] }
tokio-postgres = { version = "0.7", features = ["with-chrono-0_4", "with-serde_json-1"] }
tower-http = { version = "0.6", features = ["cors"] }
