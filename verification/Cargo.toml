[package]
name = "staking_ledger"
version = "0.1.0"
edition = "2021"
publish = false

[dependencies]
borsh = "0.9"
hex = "0.4"
rust_decimal = "1"
serde = { version = "1", features = ["derive"] }
sha2 = "0.9"
thiserror = "1"
