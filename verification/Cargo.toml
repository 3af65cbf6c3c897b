[package]
name = "message_trigger"
version = "0.1.0"
edition = "2021"
publish = false

[dependencies]
ulid = "1"
anyhow = "1"
async-trait = "0.1"
serde = { version = "1", features = ["derive"] }
serde_json = "1"
rmp-serde = "1"
serde_qs = "0.12"
http = "0.2"
tokio = { version = "1", features = ["full"] }
axum = { version = "0.6", features = ["ws"] }
futures = "0.3"
clap = { version = "4", features = ["derive"] }
redis = { version = "0.23", features = ["tokio-comp"] }
rsmq_async = "5"
async-nats = "0.33"
rumqttc = { version = "0.24", features = ["url"] }
nkeys = "0.3"
