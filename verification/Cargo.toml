[package]
name = "portfolio"
version = "0.1.0"
edition = "2021"
publish = false

[dependencies]
chrono = { version = "=0.4.45", default-features = false, features = ["clock", "std"] }
regex = "=1.13.1"
urlencoding = "=2.1.3"
serde = { version = "=1.0.229", features = ["derive"] }
toml = "=1.1.8"
kamadak-exif = "=0.6.1"
image = { version = "=0.25.10", default-features = false, features = ["jpeg", "png", "gif", "webp"] }
webp = "=0.3.1"
jxl-oxide = { version = "=0.12.6", features = ["image"] }
notify = "=8.2.1"
rand = "=0.8.8"
once_cell = "=1.21.4"
dotenvy = "=0.15.7"
tokio = { version = "=1.54.1", features = ["rt-multi-thread", "macros", "net", "time"] }
axum = "=0.8.9"
tower-http = { version = "=0.7.1", features = ["fs", "compression-gzip", "set-header"] }
