[package]
name = "powchain"
version = "0.1.0"
edition = "2021"
publish = false

[dependencies]
blake3 = "=1.8.7"
rand = "=0.8.8"
tokio = { version = "=1.54.1", features = ["full"] }
libp2p = { version = "=0.53.2", features = ["tokio", "gossipsub", "mdns", "noise", "macros", "tcp", "yamux", "quic"] }
futures = "=0.3.34"
tracing-subscriber = { version = "=0.3.23", features = ["env-filter"] }

[dev-dependencies]
serde_json = { version = "1", features = ["preserve_order"] }
