[package]
name = "stake_core"
version = "0.1.0"
edition = "2021"
publish = false

[dependencies]
sha3 = "=0.10.9"
num-bigint = "=0.4.8"
hex = "=0.4.3"
bs58 = "=0.4.0"
parking_lot = "=0.12.5"
serde = { version = "=1.0.229", features = ["derive"] }
serde_json = "=1.0.154"
anyhow = "=1.0.104"
tracing = "=0.1.44"
dirs = "=5.0.1"
tokio = { version = "=1.54.1", features = ["sync"] }
async-trait = "=0.1.92"
