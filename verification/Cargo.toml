[package]
name = "recipes"
version = "0.1.0"
edition = "2021"
publish = false

[dependencies]
libp2p = { version = "0.53", features = ["floodsub", "mdns", "noise", "tcp", "tokio", "yamux", "macros"] }
tokio = { version = "1", features = ["full"] }
log = "0.4"
pretty_env_logger = "0.5"
