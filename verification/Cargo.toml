[package]
name = "vcp_mobile"
version = "0.1.0"
edition = "2021"
publish = false

[dependencies]
serde = { version = "=1.0.229", features = ["derive"] }
serde_json = "=1.0.154"
zstd = "=0.13.4"
url = "=2.5.8"
urlencoding = "=2.1.3"
regex = "=1.13.1"
chrono = "=0.4.45"
base64 = "=0.22.1"
mime_guess = "=2.0.5"
uuid = { version = "=1.29.0", features = ["v4"] }
percent-encoding = "=2.3.2"
image = { version = "0.25", default-features = false, features = ["bmp", "dds", "exr", "ff", "gif", "hdr", "ico", "jpeg", "png", "pnm", "qoi", "tga", "tiff", "webp"] }
