[package]
name = "lact_daemon"
version = "0.1.0"
edition = "2021"
publish = false

[dependencies]
tokio = { version = "*", features = ["rt", "macros", "signal", "sync", "time", "net", "io-util"] }
futures = "*"
anyhow = "*"
tracing = "*"
tracing-subscriber = { version = "*", features = ["env-filter"] }
amdgpu-sysfs = "*"
