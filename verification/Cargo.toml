[package]
name = "zkp"
version = "0.1.0"
edition = "2021"
publish = false

[dependencies]
num-bigint = { version = "0.4", features = ["rand"] }
rand = "0.8"
uuid = { version = "1", features = ["v4"] }
sha2 = "0.10"
chrono = "0.4"
tokio = { version = "1", features = ["macros", "rt-multi-thread", "sync"] }
clap = { version = "4", features = ["derive"] }
rpassword = "7"
anyhow = "1"
config = "*"
serde = { version = "1", features = ["derive"] }
tracing = "0.1"
tracing-subscriber = { version = "0.3", features = ["env-filter"] }
thiserror = "*"
