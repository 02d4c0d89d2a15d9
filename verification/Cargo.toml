[package]
name = "jupyter_transport"
version = "0.1.0"
edition = "2021"
publish = false

[dependencies]
anyhow = "=1.0.104"
base64-simd = "=0.8.0"
bytes = "=1.12.1"
deno_error = "=0.7.3"
deno_path_util = "=0.6.4"
deno_terminal = "=0.2.3"
image = { version = "=0.25.10", default-features = false, features = ["png"] }
log = "=0.4.35"
parking_lot = "=0.12.5"
rand = "=0.8.8"
serde = { version = "=1.0.229", features = ["derive"] }
serde_json = "=1.0.154"
tokio = { version = "=1.54.1", features = ["io-util", "macros", "net", "rt", "sync"] }
wgpu-core = { version = "27", default-features = false }
wgpu-types = { version = "27", default-features = false }
