[package]
name = "enclave_tools"
version = "0.1.0"
edition = "2021"
publish = false

[dependencies]
byteorder = "=1.5.0"
sha3 = "=0.10.9"
glob = "=0.3.4"
serde = { version = "=1.0.229", features = ["derive"] }
serde_json = "=1.0.154"
serde_yaml = "=0.9.34"
toml = "=1.1.8"
nix = { version = "=0.31.3", features = ["socket", "signal", "process", "fs", "mount"] }
libc = "=0.2.191"
anyhow = "=1.0.104"
thiserror = "=2.0.21"
tokio = { version = "=1.54.1", features = ["full"] }
tokio-vsock = "=0.7.3"
clap = { version = "=4.6.7", features = ["derive"] }
tracing = "=0.1.44"
tracing-subscriber = { version = "=0.3.23", features = ["env-filter"] }
dashmap = "=6.2.1"
notify-debouncer-full = "=0.7.0"
notify = "=8.2.1"
uuid = { version = "=1.29.0", features = ["v4"] }
futures = "=0.3.34"
bytes = "=1.12.1"
log = "=0.4.35"
axum = "0.7"
async-nats = "*"
k256 = { version = "0.13", features = ["ecdh"] }
p224 = { version = "0.13", features = ["ecdh"] }
hkdf = "0.12"
rand_core = { version = "0.6", features = ["getrandom"] }
