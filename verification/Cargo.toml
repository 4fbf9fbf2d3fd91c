[package]
name = "plan-env-md"
version = "0.1.0"
edition = "2021"
publish = false

[dependencies]
argon2 = "=0.5.3"
base64 = "=0.22.1"
getrandom = "=0.3.4"
hmac = "=0.12.1"
scraper = "=0.29.0"
serde = { version = "=1.0.229", features = ["derive"] }
serde_json = "=1.0.154"
sha2 = "=0.10.9"
url = "=2.5.8"
tokio = { version = "1", features = ["rt-multi-thread", "macros", "io-std", "fs"] }
reqwest = { version = "0.12", default-features = false, features = ["json", "multipart", "rustls-tls"] }
rmcp = { version = "*", features = ["server", "transport-io", "macros"] }
