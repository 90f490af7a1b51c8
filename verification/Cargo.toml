[package]
name = "finance_as_code"
version = "0.1.0"
edition = "2021"
publish = false

[dependencies]
chrono = "=0.4.45"
rust_decimal = "=1.43.0"
rusty-money = "=0.5.1"
uuid = { version = "=1.29.0", features = ["v4", "v5"] }
encoding_rs = "=0.8.44"
csv = "=1.4.0"
natord = "=1.0.9"
serde = { version = "=1.0.229", features = ["derive"] }
serde_json = "=1.0.154"
log = "=0.4.35"
anyhow = "=1.0.104"
reqwest = { version = "=0.12.28", default-features = false, features = ["blocking", "json", "rustls-tls"] }
mlua = { version = "=0.10.5", features = ["lua54", "vendored"] }
genai = "=0.7.2"
tokio = { version = "=1.54.1", features = ["rt"] }
