[package]
name = "yu_hailo_infer"
version = "0.3.1"
edition = "2021"
publish = false

[dependencies]
base64 = "0.22"
csv = "1"
hound = "3.5"
serde = { version = "1", features = ["derive"] }
serde_json = "1"
axum = "0.8"
tokio = { version = "1", features = ["rt-multi-thread", "macros", "net", "sync"] }
clap = { version = "4", features = ["derive"] }
thiserror = "2"
tracing = "0.1"
tracing-subscriber = "0.3"
futures-util = "0.3"
image = { version = "0.25", default-features = false, features = ["png", "jpeg", "webp"] }
ndarray = "0.16"
ort = "2.0.0-rc.10"
tokenizers = "0.21"
