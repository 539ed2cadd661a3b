[package]
name = "atomic_repository"
version = "0.1.0"
edition = "2021"
publish = false

[dependencies]
fs2 = "=0.4.3"
git2 = { version = "=0.21.0", default-features = false, features = ["unstable-sha256"] }
rayon = "1"
serde = { version = "1", features = ["derive"] }
serde_json = "1"
tempfile = "3"
thiserror = "*"
walkdir = "2"
