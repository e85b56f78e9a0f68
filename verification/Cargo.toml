[package]
name = "sysinitd"
version = "0.1.0"
edition = "2021"
publish = false

[dependencies]
anyhow = "*"
clap = { version = "*", features = ["derive"] }
clap-verbosity-flag = "*"
humantime = "*"
semver = "*"
serde = { version = "*", features = ["derive"] }
serde_yml = "*"
thiserror = "*"
tokio = { version = "*", features = ["rt-multi-thread", "macros", "process", "time", "sync", "signal"] }
tracing = "*"
tracing-subscriber = "*"
