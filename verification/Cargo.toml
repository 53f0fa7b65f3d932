[package]
name = "telemetry_relay"
version = "0.1.0"
edition = "2021"
publish = false

[dependencies]
rusqlite = { version = "=0.40.2", features = ["bundled"] }
rocket = { version = "=0.5.1", features = ["json"] }
serde = { version = "=1.0.229", features = ["derive"] }
serde_json = "=1.0.151"
tokio = { version = "=1.53.2", features = ["full"] }
tokio-tungstenite = "=0.30.0"
futures = "=0.3.34"
network-tables = { version = "=0.1.3", features = ["client-v4"] }
dotenv = "=0.15.0"
colored = "=3.1.1"
