[package]
name = "framepair"
version = "0.1.0"
edition = "2021"
publish = false

[dependencies]
serde = { version = "=1.0.229", features = ["derive"] }
serde_json = "=1.0.154"
quick-xml = "=0.38.4"
walkdir = "=2.5.0"
sha2 = "=0.10.9"
trash = "=5.2.9"
tempfile = "=3.27.0"
chrono = "=0.4.45"
