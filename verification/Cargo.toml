[package]
name = "shuttlings_cch24"
version = "0.1.0"
edition = "2021"
publish = false

[dependencies]
actix-web = "4"
cargo-manifest = "0.17"
jsonwebtoken = "9"
leaky-bucket = "1"
rand = "0.8"
serde = { version = "1", features = ["derive"] }
serde_json = "1"
serde_with = "3"
serde_yml = "0.0.12"
shuttle-actix-web = "0.49"
shuttle-runtime = "0.49"
tokio = { version = "1", features = ["sync", "macros"] }
toml = "0.8"
