[package]
name = "vico_vee"
version = "0.1.0"
edition = "2021"
publish = false

[dependencies]
axum = "0.8"
base64 = "0.22"
blake3 = "1"
chacha20poly1305 = "0.10"
chrono = "0.4"
clap = { version = "4", features = ["derive", "env"] }
dirs = "6"
ed25519-dalek = "2"
hex = "0.4"
ipnet = "2"
keyring = "3"
libc = "0.2"
lru = "0.12"
rand = "0.9"
reqwest = { version = "0.12", default-features = false, features = ["json", "rustls-tls"] }
rusqlite = { version = "0.32", features = ["bundled"] }
rustls = "0.23"
serde = { version = "1", features = ["derive"] }
serde_json = "1"
serde_yaml = "0.9"
sha2 = "0.10"
tokio = { version = "1", features = ["full"] }
tokio-rustls = "0.26"
tokio-util = "0.7"
toml = "0.8"
tracing = "0.1"
tracing-subscriber = { version = "0.3", features = ["env-filter", "json"] }
uuid = { version = "1", features = ["v4"] }
which = "7"
hyper-util = { version = "0.1", features = ["tokio", "server-auto"] }
