[package]
name = "paymaster"
version = "0.1.0"
edition = "2021"
publish = false

[dependencies]
anyhow = "=1.0.104"
clap = "=4.6.7"
futures = "=0.3.34"
hex = "=0.4.3"
midnight-base-crypto = "=1.0.2"
midnight-coin-structure = "=2.0.2"
midnight-ledger = "=8.1.3"
midnight-onchain-runtime = "=3.1.2"
midnight-serialize = "=1.1.1"
midnight-storage = "=2.0.3"
midnight-transient-crypto = "=2.1.1"
midnight-zswap = "=8.1.3"
rand = "=0.8.8"
rand_chacha = "=0.3.1"
rayon = "=1.12.0"
serde = { version = "=1.0.229", features = ["derive"] }
serde_json = "=1.0.154"
tokio = { version = "=1.54.1", features = ["macros", "rt-multi-thread", "sync"] }
tracing = "=0.1.44"
tracing-subscriber = "=0.3.23"
url = "=2.5.8"
