[package]
name = "cql"
version = "0.1.0"
edition = "2021"
publish = false

[dependencies]
cdrs = "=2.3.3"
chrono = { version = "=0.4.45", features = ["serde"] }
clap = "=2.34.0"
colored_json = "=5.0.0"
futures = { version = "=0.3.34", features = ["thread-pool"] }
itertools = "=0.15.0"
serde = { version = "=1.0.229", features = ["derive"] }
serde_json = "=1.0.154"
uuid = "=0.8.2"
