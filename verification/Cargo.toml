[package]
name = "nntp_proxy"
version = "0.1.0"
edition = "2021"
publish = false

[dependencies]
anyhow = "1"
clap = { version = "4", features = ["derive", "env"] }
flate2 = "1"
foyer = "*"
memchr = "2"
moka = { version = "0.12", features = ["future", "sync"] }
pin-project-lite = "0.2"
serde = { version = "1", features = ["derive"] }
smallvec = "1"
thiserror = "2"
tokio = { version = "1", features = ["full"] }
toml = "*"
tracing = "0.1"
tracing-subscriber = { version = "0.3", features = ["env-filter"] }
twox-hash = "2"
uuid = { version = "1", features = ["v4"] }
