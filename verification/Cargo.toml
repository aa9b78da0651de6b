[package]
name = "portsage"
version = "0.11.0"
edition = "2021"
publish = false

[dependencies]
dirs = "*"
libc = "*"
serde = { version = "*", features = ["derive"] }
serde_json = "*"
thiserror = "*"
tokio = { version = "*", features = ["rt", "rt-multi-thread", "time", "macros"] }
zip = { version = "*", default-features = false, features = ["deflate"] }
