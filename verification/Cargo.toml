[package]
name = "tpu_sender"
version = "0.1.0"
edition = "2021"
publish = false

[dependencies]
bincode = "1"
bytes = "1"
clap = { version = "4", default-features = false, features = ["derive", "help", "std", "usage"] }
dotenvy = "0.15"
futures = { version = "0.3", default-features = false, features = ["std"] }
solana-clock = "3.0"
solana-commitment-config = "3.0"
solana-hash = "3.0"
solana-keypair = "3.0"
solana-message = "3.0"
solana-pubkey = "3.0"
solana-rpc-client = { version = "3.0", default-features = false }
solana-signature = "3.0"
solana-signer = "3.0"
solana-system-interface = { version = "2.0", features = ["bincode"] }
solana-transaction = { version = "3.0", features = ["bincode", "serde"] }
solana-transaction-status-client-types = "3.0"
thiserror = "2"
tokio = { version = "1", features = ["macros", "rt-multi-thread", "signal", "sync", "time"] }
tracing = "0.1"
tracing-subscriber = { version = "0.3", features = ["env-filter"] }
