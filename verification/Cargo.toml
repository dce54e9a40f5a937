[package]
name = "radixdb_engine"
version = "0.1.0"
edition = "2021"
publish = false

[dependencies]
ahash = "0.8"
arc-swap = "1"
crc32fast = "1"
libc = "0.2"
parking_lot = "0.12"
rustc-hash = "2"
serde = { version = "1", features = ["derive"] }
sha2 = "0.10"
smallvec = "1"
