[package]
name = "md5rs_client"
version = "0.1.0"
edition = "2021"
publish = false

[dependencies]
anyhow = "*"
async-stream = "*"
base64 = "*"
chrono = "*"
clap = { version = "*", features = ["derive"] }
crossbeam = "*"
crossbeam-channel = "*"
fast_image_resize = { version = "*", features = ["image"] }
ffmpeg-sidecar = "*"
image = "*"
indicatif = "*"
jpeg-decoder = "*"
nom-exif = "*"
prost = "0.13"
rayon = "*"
rustls = "*"
rustls-native-certs = "*"
rustls-pki-types = "*"
thiserror = "*"
tokio = { version = "*", features = ["full"] }
tokio-stream = "*"
tonic = { version = "0.12", features = ["tls"] }
tracing = "*"
tracing-appender = "*"
tracing-error = "*"
tracing-subscriber = { version = "*", features = ["env-filter"] }
url = "*"
uuid = { version = "*", features = ["v4"] }
walkdir = "*"
webp = "*"
