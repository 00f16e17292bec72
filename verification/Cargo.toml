[package]
name = "wzp_client"
version = "0.1.0"
edition = "2021"
publish = false

[dependencies]
rand = "=0.8.8"
tokio = { version = "=1.54.1", features = ["net", "time", "rt-multi-thread", "macros", "io-util", "process", "sync", "signal"] }
serde = { version = "=1.0.229", features = ["derive"] }
serde_json = "=1.0.154"
anyhow = "=1.0.104"
chrono = "=0.4.45"
clap = { version = "=4.6.7", features = ["derive"] }
tracing = "=0.1.44"
tracing-subscriber = "=0.3.23"
if-addrs = "=0.13.4"
libc = "=0.2.191"
async-trait = "=0.1.92"
bytes = "=1.12.1"
crossterm = "=0.28.1"
ratatui = "=0.29.0"
jni = "=0.21.1"
