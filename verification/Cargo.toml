[package]
name = "lazarus"
version = "0.1.0"
edition = "2021"
publish = false

[dependencies]
aes-gcm = "0.10"
argon2 = { version = "0.5", features = ["std"] }
async-trait = "0.1"
aws-config = { version = "1", default-features = false, features = ["rustls", "rt-tokio"] }
aws-sdk-s3 = { version = "1", default-features = false, features = ["rustls", "rt-tokio", "sigv4a"] }
bincode = "1"
blake3 = "1"
chrono = "0.4"
clap = { version = "4", features = ["derive"] }
comfy-table = "7"
dialoguer = "0.11"
dirs = "5"
filetime = "0.2"
futures = "0.3"
hostname = "0.4"
indicatif = "0.17"
libc = "0.2"
rand = "0.8"
rusqlite = { version = "0.31", features = ["bundled"] }
serde = { version = "1", features = ["derive"] }
serde_json = "1"
ssh2 = "0.9"
thiserror = "1"
tokio = { version = "1", features = ["full"] }
toml = "0.8"
tracing = "0.1"
tracing-subscriber = "0.3"
uuid = { version = "1", features = ["v4"] }
which = "6"
zstd = "0.13"
