[package]
name = "flb"
version = "0.1.0"
edition = "2021"
publish = false

[dependencies]
regex = "=1.13.1"
rand = "=0.8.8"
uuid = { version = "=1.29.0", features = ["v4"] }
chrono = "=0.4.45"
x509-parser = "=0.16.0"
hmac = "=0.12.1"
sha1 = "=0.10.7"
sha2 = "=0.10.9"
base64 = "=0.22.1"
serde = { version = "=1.0.229", features = ["derive"] }
serde_json = "=1.0.154"
serde_yaml = "=0.9.34"
tokio = { version = "=1.54.1", features = ["full"] }
axum = "=0.8.9"
tower-http = { version = "=0.6.11", features = ["cors", "fs"] }
reqwest = { version = "=0.12.28", default-features = false, features = ["json", "rustls-tls"] }
clap = { version = "=4.6.7", features = ["derive", "env"] }
tracing = "=0.1.44"
tracing-subscriber = { version = "=0.3.23", features = ["env-filter"] }
anyhow = "=1.0.104"
thiserror = "=2.0.21"
jsonwebtoken = "=9.3.1"
instant-acme = "=0.7.2"
rcgen = "=0.13.2"
rustls-pemfile = "=2.2.0"
rustls = { version = "=0.23.46", default-features = false, features = ["ring", "std", "tls12", "logging"] }
tokio-rustls = { version = "=0.26.6", default-features = false, features = ["ring", "tls12", "logging"] }
hyper = { version = "=1.12.0", features = ["server", "http1", "http2"] }
hyper-util = { version = "=0.1.21", features = ["server-auto", "tokio", "service"] }
