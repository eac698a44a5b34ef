[package]
name = "recall"
version = "0.1.0"
edition = "2021"
publish = false

[dependencies]
anyhow = "=1.0.104"
clap = { version = "=4.6.7", features = ["derive"] }
fastembed = { version = "=4.9.0", default-features = false, features = ["ort-load-dynamic", "hf-hub-rustls-tls"] }
ort = { version = "=2.0.0-rc.9", default-features = false, features = ["load-dynamic", "ndarray"] }
ort-sys = { version = "=2.0.0-rc.9", default-features = false, features = ["load-dynamic"] }
flate2 = "=1.1.10"
fs2 = "=0.4.3"
jwalk = "=0.8.1"
regex = "=1.13.1"
rusqlite = { version = "=0.32.1", features = ["bundled"] }
serde = { version = "=1.0.229", features = ["derive"] }
serde_json = "=1.0.154"
sha2 = "=0.10.9"
tar = "=0.4.46"
tempfile = "=3.27.0"
ureq = { version = "=2.12.1", features = ["json"] }
zip = { version = "=2.6.1", default-features = false, features = ["deflate"] }
