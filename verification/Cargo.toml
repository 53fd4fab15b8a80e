[package]
name = "peer_persistence"
version = "0.1.0"
edition = "2021"
publish = false

[dependencies]
lru = "=0.7.8"
libp2p-identity = { version = "=0.2.14", features = ["peerid"] }
multiaddr = "=0.18.2"
serde = { version = "1", features = ["derive"] }
serde_json = "1"
tokio = { version = "1", features = ["fs", "io-util", "time", "rt"] }
futures = "0.3"
log = "0.4"
clap = { version = "4", features = ["derive"] }
parity-scale-codec = { version = "3", features = ["derive"] }
