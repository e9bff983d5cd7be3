[package]
name = "shardlite"
version = "0.1.0"
edition = "2021"
publish = false

[dependencies]
bincode = { version = "=2.0.1", features = ["serde"] }
blake3 = "=1.8.7"
hmac = "=0.12.1"
libsqlite3-sys = "=0.39.1"
rusqlite = { version = "=0.41.1", features = ["bundled"] }
rustls = { version = "=0.23.46", default-features = false, features = ["ring", "std", "tls12", "logging"] }
rustls-pemfile = "=2.2.0"
serde = { version = "=1.0.229", features = ["derive"] }
serde_json = "=1.0.154"
sha2 = "=0.10.9"
sqlparser = { version = "=0.62.0", features = ["visitor"] }
tiny_http = "=0.12.0"
tracing = "=0.1.44"
ureq = "=2.12.1"

[dev-dependencies]
tempfile = "=3.27.0"
