[package]
name = "fut"
version = "0.1.0"
edition = "2021"
publish = false

[dependencies]
anyhow = "1"
bytes = "1"
futures-util = { version = "0.3", features = ["sink"] }
libc = "0.2"
rmp-serde = "=1.3.1"
semver = "=1.0.28"
serde = { version = "1", features = ["derive"] }
serde_json = "1"
sha2 = "=0.10.9"
thiserror = "2"
tokio = { version = "1", features = ["full"] }
tokio-util = { version = "=0.7.20", features = ["codec"] }
toml = "0.9"
tracing = "0.1"
tracing-subscriber = "0.3"
uuid = { version = "=1.29.0", features = ["v4", "serde"] }

[dev-dependencies]
tempfile = "3"
