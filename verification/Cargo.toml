[package]
name = "kabekami"
version = "0.1.0"
edition = "2021"
publish = false

[dependencies]
rand = "0.9"
sha2 = "0.10"
hex = "0.4"
url = "2"
anyhow = "1"
serde = { version = "1", features = ["derive"] }
serde_json = "1"
toml = "0.8"
tracing = "0.1"
tracing-subscriber = { version = "0.3", features = ["env-filter"] }
tokio = { version = "1", features = ["rt-multi-thread", "macros", "sync", "time", "signal", "fs", "io-util", "net"] }
futures-util = "0.3"
zbus = { version = "5", default-features = false, features = ["tokio"] }
ksni = "0.3"
reqwest = { version = "0.12", default-features = false, features = ["rustls-tls", "json", "stream"] }
image = { version = "0.25", default-features = false, features = ["jpeg", "png", "webp"] }
notify = "8"
trash = "5"
dirs = "6"
