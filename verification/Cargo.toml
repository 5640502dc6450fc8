[package]
name = "howy_daemon"
version = "0.1.0"
edition = "2021"
publish = false

[dependencies]
anyhow = "=1.0.104"
bincode = "=1.3.3"
hex = "=0.4.3"
image = { version = "=0.25.10", default-features = false, features = ["jpeg", "png", "bmp"] }
libc = "=0.2.191"
ndarray = "=0.17.2"
ort = { version = "=2.0.0-rc.12", default-features = false, features = ["std", "ndarray", "load-dynamic", "migraphx", "cuda", "rocm", "api-24"] }
serde = { version = "=1.0.229", features = ["derive"] }
serde_json = "=1.0.154"
sha2 = "=0.11.1"
tokio = { version = "=1.54.1", features = ["full"] }
tracing = "=0.1.44"
tracing-subscriber = { version = "=0.3.23", features = ["env-filter"] }
v4l = "=0.14.0"
zeroize = { version = "=1.9.1", features = ["derive"] }
