[package]
name = "token_ledger"
version = "0.1.0"
edition = "2021"
publish = false

[dependencies]
anyhow = "=1.0.104"
blake2 = "=0.10.6"
bytes = "=1.12.1"
clap = { version = "=4.6.7", features = ["derive"] }
colored = "=3.1.1"
ed25519-consensus = "=2.1.0"
futures = "=0.3.34"
hex = "=0.4.3"
jam-codec = { version = "=0.1.1", features = ["derive"] }
jam-null-authorizer-bin = "=0.1.26"
jam-pvm-common = { version = "=0.1.26", features = ["logging", "service"] }
jam-std-common = "=0.1.26"
jam-tooling = "=0.1.26"
jam-types = "=0.1.26"
jsonrpsee = { version = "=0.24.11", features = ["ws-client"] }
polkavm-derive = "=0.29.0"
serde = { version = "=1.0.229", features = ["derive"] }
serde_json = "=1.0.154"
tokio = { version = "=1.54.1", features = ["rt-multi-thread", "macros"] }
