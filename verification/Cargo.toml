[package]
name = "kreatilas"
version = "0.1.0"
edition = "2021"
publish = false

[dependencies]
anyhow = "1"
blake3 = { version = "1", features = ["serde"] }
bytes = "1"
chrono = { version = "0.4", default-features = false, features = ["std"] }
colored = "3"
derive_more = { version = "2", features = ["debug"] }
ed25519-dalek = { version = "2", features = ["pkcs8", "pem"] }
futures = "0.3"
gumdrop = "0.8"
iroh-base = { version = "0.35", features = ["ticket"] }
n0-future = "0.1"
nu-ansi-term = "0.50"
postcard = { version = "1", features = ["use-std"] }
rand = "0.9"
rand_core = { version = "0.6", features = ["getrandom"] }
reedline = "0.40"
serde = { version = "1", features = ["derive"] }
tokio = { version = "1", features = ["rt-multi-thread", "macros", "sync", "io-util", "fs", "time"] }
tokio-util = "0.7"
tracing = "0.1"
tracing-subscriber = { version = "0.3", features = ["env-filter"] }
uuid = { version = "1", features = ["v4", "serde"] }
