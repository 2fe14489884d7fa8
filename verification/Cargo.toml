[package]
name = "mcp_gateway"
version = "0.1.0"
edition = "2021"
publish = false

[dependencies]
rand = "=0.10.3"
axum = "=0.8.9"
axum-extra = { version = "=0.12.6", features = ["typed-header"] }
futures = "=0.3.34"
rmcp = { version = "=3.5.1", features = ["client", "transport-child-process"] }
serde = { version = "=1.0.229", features = ["derive"] }
serde_json = "=1.0.151"
tokio = { version = "=1.53.2", features = ["rt-multi-thread", "macros", "sync", "process", "io-util", "time", "net"] }
tokio-stream = "=0.1.19"
tokio-util = "=0.7.19"
