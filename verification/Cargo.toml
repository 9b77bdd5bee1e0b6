[package]
name = "accumulator"
version = "0.1.0"
edition = "2021"
publish = false

[dependencies]
anyhow = "1"
blake2b_simd = "1"
bytes = "1"
clap = { version = "4", features = ["derive", "env"] }
clap-stdin = { version = "*", features = ["tokio"] }
fvm_shared = "*"
serde_json = "1"
tokio = { version = "1", features = ["io-std", "io-util", "macros", "rt-multi-thread"] }
