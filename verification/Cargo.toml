[package]
name = "rust-str-bench"
version = "0.1.0"
edition = "2021"
publish = false

[dependencies]
fnv = "1"
hashbrown = { version = "0.14", default-features = false, features = ["raw"] }
memchr = "2"
parking_lot = "0.12"
rand = "0.8"
twox-hash = "1.6"
xxhash-rust = { version = "0.8", features = ["xxh3", "xxh64"] }
