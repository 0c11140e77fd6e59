[package]
name = "cooklang_sync_client"
version = "0.1.0"
edition = "2021"
publish = false

[dependencies]
sha2 = "=0.10.9"
quick_cache = "=0.7.0"
path-slash = "=0.2.1"
uuid = { version = "=1.29.0", features = ["v4"] }
time = "=0.3.55"
tokio = { version = "=1.54.1", features = ["full"] }
tokio-util = "=0.7.20"
futures = "=0.3.34"
async-stream = "=0.3.6"
reqwest = { version = "=0.12.28", default-features = false, features = ["rustls-tls", "gzip", "json", "stream"] }
reqwest-middleware = "=0.4.2"
serde = { version = "=1.0.229", features = ["derive"] }
diesel = { version = "=2.3.14", features = ["sqlite", "r2d2", "time"] }
libsqlite3-sys = { version = "=0.38.2", features = ["bundled"] }
walkdir = "=2.5.0"
notify-debouncer-mini = "=0.7.0"
jsonwebtoken = "=9.3.1"
log = "=0.4.34"
env_logger = "=0.11.11"
thiserror = "=2.0.21"
