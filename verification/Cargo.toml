[package]
name = "my_little_db"
version = "0.1.0"
edition = "2021"
publish = false

[dependencies]
anyhow = "1"
postcard = { version = "1", features = ["alloc"] }
rustc-hash = "2"
serde = { version = "1", features = ["derive"] }
serde_json = "1"
tracing = "0.1"
tracing-subscriber = { version = "0.3", features = ["env-filter", "fmt"] }
xxhash-rust = { version = "0.8", features = ["xxh3"] }
