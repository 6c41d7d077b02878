[package]
name = "barter_execution"
version = "0.1.0"
edition = "2021"
publish = false

[dependencies]
uuid = { version = "=1.29.0", features = ["v4", "serde"] }
chrono = "=0.4.45"
serde = { version = "=1.0.229", features = ["derive"] }
serde_json = "=1.0.154"
thiserror = "=1.0.69"
tokio = { version = "=1.54.1", features = ["sync", "macros", "rt-multi-thread", "time"] }
async-trait = "=0.1.92"
futures = "=0.3.34"
parking_lot = "=0.12.5"
pin-project = "=1.1.13"
tracing = "=0.1.44"
num-traits = "=0.2.19"
tokio-tungstenite = "=0.17.2"
barter-integration = "=0.4.1"
barter-data = "=0.5.11"
web3 = { version = "=0.18.0", default-features = false, features = ["ws-tokio", "signing"] }
secp256k1 = "=0.21.3"
