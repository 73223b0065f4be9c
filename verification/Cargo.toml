[package]
name = "xr-proxy"
version = "0.1.0"
edition = "2021"
publish = false

[dependencies]
base64 = "*"
rand = "*"
clap = { version = "*", features = ["derive"] }
libc = "*"
maxminddb = "*"
serde = { version = "*", features = ["derive"] }
tokio = { version = "*", features = ["rt", "rt-multi-thread", "net", "io-util", "time", "macros", "signal", "sync"] }
toml = "*"
tracing = "*"
tracing-subscriber = { version = "*", features = ["env-filter"] }
