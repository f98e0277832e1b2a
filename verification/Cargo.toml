[package]
name = "tear"
version = "0.1.8"
edition = "2021"
publish = false

[dependencies]
anyhow = "=1.0.104"
blake3 = "=1.8.7"
engate-attach = "=0.1.6"
engate-types = "=0.1.6"
ishou-tokens = "=0.1.24"
kanshou = "=0.1.11"
nix = { version = "=0.31.3", features = ["socket"] }
notify = "=8.2.1"
parking_lot = "=0.12.5"
portable-pty = "=0.9.0"
serde = { version = "=1.0.229", features = ["derive"] }
serde_json = "=1.0.154"
serde_yaml_ng = "=0.10.0"
thiserror = "=2.0.21"
tokio = { version = "=1.54.1", features = ["rt", "macros"] }
tracing = "=0.1.44"
unicode-width = "=0.2.3"
vte = "=0.15.0"

[dev-dependencies]
espelho = "=0.1.1"
