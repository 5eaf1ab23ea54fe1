[package]
name = "solend_liquidator"
version = "0.1.0"
edition = "2021"
publish = false

[dependencies]
solana-program = "1.14"
solana-sdk = "1.14"
spl-token = "3.5"
switchboard-protos = "0.1"
quick-protobuf = "0.8"
bytemuck = "1"
uint = "0.9"
borsh = "0.9"
serde = { version = "1", features = ["derive"] }
serde_json = "1"
either = "1"
thiserror = "1"
lazy_static = "1"
parking_lot = "0.12"
rayon = "1"
futures-retry = "0.6"
async-trait = "0.1"
tokio = { version = "1", features = ["rt-multi-thread", "macros", "fs"] }
clap = { version = "3.2", features = ["derive"] }
hyper = { version = "0.14", features = ["client", "http1", "tcp"] }
