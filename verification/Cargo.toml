[package]
name = "fortyone"
version = "0.1.0"
edition = "2021"
publish = false

[dependencies]
rand = "0.8"
uuid = { version = "1", features = ["v4", "serde"] }
serde = { version = "1", features = ["derive"] }
serde_json = "1"
axum = { version = "0.8", features = ["ws"] }
tokio = { version = "1", features = ["full"] }
redis = { version = "0.27", features = ["tokio-comp"] }
deadpool-redis = "0.18"
jsonwebtoken = "9"
dotenvy = "0.15"
tower-http = { version = "0.6", features = ["cors"] }
tower_governor = "0.7"
http = "1"
tracing = "0.1"
tracing-subscriber = { version = "0.3", features = ["env-filter"] }
futures-util = "0.3"
thiserror = "2"
async-trait = "0.1"
dashmap = "6"
