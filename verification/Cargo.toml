[package]
name = "culler_core"
version = "0.1.0"
edition = "2021"
publish = false

[dependencies]
rusqlite = "=0.41.1"
blake3 = { version = "=1.8.7", features = ["pure"] }
image = { version = "=0.25.10", default-features = false, features = ["jpeg", "png"] }
kamadak-exif = "=0.6.1"
walkdir = "=2.5.0"
rayon = "=1.12.0"
thiserror = "=2.0.21"
