[package]
name = "lnx_store"
version = "0.1.0"
edition = "2021"
publish = false

[dependencies]
anyhow = "=1.0.104"
async-trait = "=0.1.92"
axum = { version = "*", default-features = false }
base64 = "=0.22.1"
bytes = "*"
evmap = "=10.0.2"
headers = "*"
itoa = "=1.0.18"
rand = "=0.8.8"
ryu = "=1.0.23"
serde = { version = "=1.0.229", features = ["derive"] }
serde_json = "=1.0.154"
sqlx = { version = "=0.9.0", default-features = false, features = ["sqlite", "runtime-tokio"] }
symspell = "=0.5.2"
time = { version = "=0.3.55", features = ["parsing", "formatting"] }
tokio = { version = "=1.54.1", features = ["rt", "sync", "fs", "io-util"] }
tower-http = { version = "*", features = ["validate-request"] }
