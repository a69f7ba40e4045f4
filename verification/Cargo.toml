[package]
name = "cctmog"
version = "0.1.0"
edition = "2021"
publish = false

[dependencies]
rand = "=0.8.8"
serde = { version = "=1.0.229", features = ["derive"] }
serde_json = "=1.0.151"
parking_lot = "=0.12.5"
uuid = { version = "=1.27.0", features = ["v4", "serde"] }
tokio = { version = "=1.53.2", features = ["rt-multi-thread", "macros", "sync", "net"] }
axum = { version = "=0.7.9", features = ["ws"] }
futures = "=0.3.34"
