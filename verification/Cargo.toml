[package]
name = "schema_mirror"
version = "0.1.0"
edition = "2021"
publish = false

[dependencies]
anyhow = "1"
datafusion = { version = "*", default-features = false, features = ["parquet"] }
influxdb = "*"
parquet = { version = "*", default-features = false }
serde_json = "1"
tokio = { version = "1", features = ["rt-multi-thread", "macros", "time"] }

[dev-dependencies]
bytes = "1"
