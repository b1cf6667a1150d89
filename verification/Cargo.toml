[package]
name = "iceberg_projection"
version = "0.1.0"
edition = "2021"
publish = false

[dependencies]
arrow-schema = "=58.4.1"
parquet = { version = "=58.4.1", default-features = false, features = ["arrow"] }
