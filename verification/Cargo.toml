[package]
name = "multi_threaded_ledger"
version = "0.1.0"
edition = "2021"
publish = false

[dependencies]
ed25519-dalek = { version = "2", features = ["serde", "rand_core"] }
rand_core = { version = "0.6", features = ["getrandom"] }
bincode = "1"
serde = { version = "1", features = ["derive"] }
crossbeam = "0.8"
chrono = "0.4"
hex = "0.4"
