[package]
name = "ginger_rs"
version = "0.1.0"
edition = "2021"
publish = false

[dependencies]
async-stream = "=0.3.6"
axum = "=0.8.9"
bytes = "1"
env_logger = "=0.11.11"
futures = "0.3"
image = { version = "=0.25.10", default-features = false, features = ["png", "pnm"] }
jpeg-encoder = "=0.6.1"
libc = "0.2"
libcamera = "=0.7.0"
log = "0.4"
nalgebra = "=0.33.3"
rand = { version = "=0.9.5", features = ["small_rng"] }
rayon = "=1.12.0"
rppal = "=0.22.1"
serde = { version = "1", features = ["derive"] }
serde_json = "1"
tokio = { version = "1", features = ["full"] }
toml = "=0.8.23"
v4l = "=0.14.0"
webrtc = "=0.11.0"
