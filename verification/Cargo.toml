[package]
name = "account_socket"
version = "0.1.0"
edition = "2021"
publish = false

[dependencies]
chrono = "=0.4.45"
tokio = { version = "*", features = ["full"] }
warp = { version = "=0.4.3", features = ["server", "websocket"] }
futures-util = "*"
serde = { version = "*", features = ["derive"] }
serde_json = "*"
redis = { version = "=1.7.1", features = ["tokio-comp"] }
sqlx = { version = "=0.9.0", features = ["runtime-tokio", "sqlite"] }
thiserror = "*"
anyhow = "*"
dotenv = "*"
tracing = "*"
tracing-subscriber = { version = "*", features = ["env-filter"] }
