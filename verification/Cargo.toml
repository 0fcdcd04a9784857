[package]
name = "serve_live"
version = "0.1.0"
edition = "2021"
publish = false

[dependencies]
anyhow = "=1.0.104"
argh = "=0.1.19"
env_logger = "=0.11.11"
futures-channel = "=0.3.34"
futures-util = "=0.3.34"
http = "=1.5.0"
log = "=0.4.34"
notify = "=8.2.0"
tokio = { version = "=1.53.2", features = ["macros", "rt-multi-thread"] }
warp = { version = "=0.4.3", features = ["server"] }

[dev-dependencies]
serde_json = "=1.0.151"
