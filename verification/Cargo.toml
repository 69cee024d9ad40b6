[package]
name = "data-spark"
version = "0.2.0"
edition = "2021"
publish = false

[dependencies]
arrow-array = "*"
arrow-schema = "*"
clap = { version = "4", features = ["derive"] }
csv = "1"
duckdb = { version = "*", features = ["vtab-arrow"] }
parquet = { version = "*", default-features = false, features = ["arrow"] }
serde = { version = "1", features = ["derive"] }
serde_json = { version = "1", features = ["preserve_order"] }
serde_yaml = "0.9"
uuid = { version = "1", features = ["v4"] }
