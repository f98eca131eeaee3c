[package]
name = "state_sync"
version = "0.1.0"
edition = "2021"
publish = false

[dependencies]
borsh = "=1.8.1"
lru = { version = "=0.18.5", default-features = false }
rand = "=0.10.3"
tokio = { version = "=1.53.2", features = ["sync"] }
