[package]
name = "tron"
version = "0.1.0"
edition = "2021"
publish = false

[dependencies]
anyhow = "1"
async-trait = "*"
bytemuck = "*"
clap = { version = "4", features = ["derive"] }
evdev = "*"
glam = "*"
pollster = "*"
rustix = { version = "1", features = ["fs"] }
serde = { version = "1", features = ["derive"] }
serde_json = "1"
tokio = { version = "1", features = ["rt-multi-thread", "macros", "io-util", "time", "sync"] }
tokio-serial = { version = "*", default-features = false }
tracing = "*"
tracing-subscriber = "*"
