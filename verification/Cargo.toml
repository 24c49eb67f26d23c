[package]
name = "solana_aggregator"
version = "0.1.0"
edition = "2021"
publish = false

[dependencies]
dotenv = "=0.15.0"
env_logger = { version = "=0.11.11", default-features = false }
log = "=0.4.34"
serde = { version = "=1.0.229", features = ["derive"] }
serde_json = "=1.0.151"
solana-pubkey = "=4.4.0"
solana-signature = "=3.6.0"
thiserror = "=2.0.21"
tokio = { version = "=1.53.2", features = ["macros", "rt-multi-thread", "signal", "sync", "time"] }
warp = { version = "=0.4.3", default-features = false, features = ["server"] }
