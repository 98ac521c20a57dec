[package]
name = "exchange_core"
version = "0.1.0"
edition = "2021"
publish = false

[dependencies]
xxhash-rust = { version = "=0.8.19", features = ["xxh3"] }
crc32fast = "=1.5.4"
rust_decimal = "=1.43.0"
rand = "=0.9.5"
serde = { version = "=1.0.229", features = ["derive"] }
serde_json = "=1.0.154"
uuid = { version = "=1.29.0", features = ["v4", "serde"] }
ulid = "=1.2.1"
crossbeam = "=0.8.5"
bincode = "1"
