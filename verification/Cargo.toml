[package]
name = "u8pls"
version = "0.1.0"
edition = "2021"
publish = false

[dependencies]
anyhow = "1"
async-trait = "0.1"
chardetng = "0.1"
clap = { version = "4", features = ["derive"] }
encoding_rs = "0.8"
futures-core = "0.3"
regex = "1"
tokio = { version = "1", features = ["rt-multi-thread", "macros", "fs", "io-util", "sync"] }
