[package]
name = "price_oracle"
version = "0.1.0"
edition = "2021"
publish = false

[dependencies]
axum = "=0.8.9"
brk_oracle = "=0.2.5"
brk_reader = "=0.2.5"
brk_rpc = "=0.2.5"
brk_types = "=0.2.5"
serde = { version = "=1.0.229", features = ["derive"] }
serde_json = "=1.0.154"
tracing = "=0.1.44"
