[package]
name = "exchange_engine"
version = "0.1.0"
edition = "2021"
publish = false

[dependencies]
axum = "0.7"
chrono = "0.4"
dotenvy = "0.15"
futures-util = { version = "0.3", features = ["sink"] }
once_cell = "1"
rand = "0.8"
redis = { version = "0.25", features = ["tokio-comp"] }
sea-orm = { version = "0.12", default-features = false, features = ["sqlx-postgres", "runtime-tokio-rustls", "macros", "with-chrono"] }
serde = { version = "1", features = ["derive"] }
serde_json = "1"
tokio = { version = "1", features = ["full"] }
tokio-tungstenite = "0.21"
