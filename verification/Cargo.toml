[package]
name = "secret_staking"
version = "0.1.0"
edition = "2021"
publish = false

[dependencies]
rust_decimal = "=1.43.0"
subtle = "=2.6.1"
cosmwasm-std = { version = "=0.10.1", features = ["staking"] }
cosmwasm-storage = "=0.10.1"
bincode2 = "=2.0.1"
serde = { version = "=1.0.229", features = ["derive"] }
schemars = "=0.7.6"
