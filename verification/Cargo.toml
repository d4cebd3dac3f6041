[package]
name = "cc_matrix_channel"
version = "0.1.0"
edition = "2021"
publish = false

[dependencies]
anyhow = "1"
clap = { version = "4", features = ["derive", "env"] }
constant_time_eq = "0.4"
dirs-next = "2"
dotenvy = "0.15"
libc = "0.2"
matrix-sdk = { version = "0.9", default-features = false, features = ["e2e-encryption", "sqlite", "bundled-sqlite", "rustls-tls", "markdown"] }
mime = "0.3"
mime_guess = "2"
parking_lot = "0.12"
rand = "0.9"
regex = "1"
rmcp = { version = "*", default-features = false, features = ["server", "macros", "transport-io"] }
serde = { version = "1", features = ["derive"] }
serde_json = "1"
tokio = { version = "1", features = ["rt-multi-thread", "macros", "sync", "time", "signal", "fs", "io-std"] }
tokio-util = "0.7"
tracing = "0.1"
tracing-subscriber = { version = "0.3", features = ["env-filter"] }
