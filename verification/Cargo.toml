[package]
name = "channel_node"
version = "0.1.0"
edition = "2021"
publish = false

[dependencies]
base64 = "0.13"
bitcoin = "0.27"
bitcoin-bech32 = "0.12"
lightning = { version = "0.0.105", features = ["max_level_trace"] }
lightning-background-processor = "0.0.105"
lightning-block-sync = { version = "0.0.105", features = ["rpc-client"] }
lightning-invoice = "0.13"
lightning-net-tokio = "0.0.105"
lightning-persister = "0.0.105"
rand = "0.4"
rusqlite = { version = "*", features = ["bundled"] }
serde_json = "1.0"
tokio = { version = "1", features = ["io-util", "macros", "rt", "rt-multi-thread", "sync", "net", "time"] }
