[package]
name = "bulk_pipeline"
version = "0.1.0"
edition = "2021"
publish = false

[dependencies]
uuid = { version = "=1.27.0", features = ["v4"] }
chrono = "=0.4.45"
tokio = { version = "=1.53.2", features = ["full"] }
tokio-postgres = { version = "=0.7.18", features = ["with-chrono-0_4"] }
deadpool-postgres = "=0.14.2"
deadpool-tiberius = { version = "=0.1.9", features = ["chrono"] }
tokio-util = { version = "=0.7.19", features = ["compat"] }
futures-util = "=0.3.34"
bytes = "=1.12.1"
tempfile = "=3.27.0"
serde = { version = "=1.0.229", features = ["derive"] }
serde_json = "=1.0.151"
rand = "=0.10.3"
