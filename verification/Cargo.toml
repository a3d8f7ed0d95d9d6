[package]
name = "yellowbox"
version = "0.1.0"
edition = "2021"
publish = false

[dependencies]
chrono = "*"
url = "*"
serde = { version = "*", features = ["derive"] }
serde_json = "*"
zip = { version = "*", default-features = false, features = ["deflate"] }
walkdir = "*"
filetime = "*"
futures = "*"
tokio = { version = "*", features = ["rt-multi-thread", "fs", "sync", "time", "macros", "process", "io-util"] }
rusqlite = { version = "*", features = ["bundled"] }
tokio-rusqlite = "*"
reqwest = { version = "*", default-features = false, features = ["rustls-tls", "stream"] }
image = { version = "*", default-features = false, features = ["png", "jpeg"] }
little_exif = "*"
tracing = "*"

[dev-dependencies]
