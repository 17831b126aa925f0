[package]
name = "media_scanner"
version = "0.1.0"
edition = "2021"
publish = false

[dependencies]
blake3 = "1"
dunce = "1"
fast_image_resize = "2"
image = "0.24"
lofty = "0.18"
num_cpus = "1"
sqlite3 = "*"
threadpool = "1"
uuid = { version = "1", features = ["v4"] }
