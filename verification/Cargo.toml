[package]
name = "ltmrs"
version = "0.1.0"
edition = "2021"
publish = false

[dependencies]
uuid = { version = "1", features = ["v5"] }
sha2 = "0.10"
regex = "1"
serde = { version = "1", features = ["derive"] }
serde_json = "1"
tokio = { version = "1", features = ["net", "io-util", "sync", "rt-multi-thread", "time", "macros"] }
fjall = "3"
thiserror = "2"
libc = "0.2"
