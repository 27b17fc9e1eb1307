[package]
name = "palworld_server"
version = "0.1.0"
edition = "2021"
publish = false

[dependencies]
anyhow = "*"
clap = { version = "*", features = ["derive"] }
fern = "*"
humantime = "*"
log = "*"
psutil = "*"
serde = { version = "*", features = ["derive"] }
serde_json = "*"
ssh2 = "*"
tokio = { version = "*", features = ["rt-multi-thread", "macros", "net", "time", "io-util"] }
