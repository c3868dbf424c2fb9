[package]
name = "exeio"
version = "0.1.0"
edition = "2021"
publish = false

[dependencies]
chrono = "=0.4.45"
clap = { version = "*", features = ["derive"] }
dirs = "*"
serde = { version = "*", features = ["derive"] }
serde_json = "*"
signal-hook = "*"
tokio = { version = "*", features = ["full"] }
warp = { version = "*", features = ["server"] }
