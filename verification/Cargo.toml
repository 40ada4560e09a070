[package]
name = "json_normalizer"
version = "0.1.0"
edition = "2021"
publish = false

[dependencies]
serde = { version = "*", features = ["derive"] }
serde_json = "*"
toml = "*"
polars = { version = "*", default-features = false, features = ["json", "parquet"] }
reqwest = { version = "*", default-features = false, features = ["blocking", "rustls-tls"] }
indicatif = "*"
