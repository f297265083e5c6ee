[package]
name = "wbor_studio_dashboard"
version = "0.1.0"
edition = "2021"
publish = false

[dependencies]
chrono = "=0.4.45"
base64 = "=0.22.1"
regex = "=1.13.1"
serde = { version = "=1.0.229", features = ["derive"] }
serde_json = "=1.0.154"
tokio = { version = "=1.54.1", features = ["rt-multi-thread", "macros", "sync", "time", "fs", "io-util", "process"] }
reqwest = { version = "=0.12.28", default-features = false, features = ["json", "rustls-tls"] }
futures = "=0.3.34"
rand = "=0.8.8"
log = "=0.4.35"
env_logger = "=0.11.11"
anyhow = "=1.0.104"
lazy_static = "=1.5.1"
interprocess = "=2.4.7"
sdl2 = { version = "0.37", features = ["image", "ttf", "gfx"] }
