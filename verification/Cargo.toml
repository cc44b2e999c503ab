[package]
name = "diarization"
version = "0.1.0"
edition = "2021"
publish = false

[dependencies]
anyhow = "1"
futures-util = "0.3"
log = "0.4"
ndarray = "0.16"
ort = { version = "=2.0.0-rc.10", default-features = false, features = ["std", "ndarray", "load-dynamic"] }
reqwest = { version = "0.12", default-features = false, features = ["stream", "blocking", "rustls-tls"] }
serde = { version = "1", features = ["derive"] }
serde_json = "1"
sysinfo = "0.33"
thiserror = "2"
tokio = { version = "1", features = ["fs", "sync", "io-util", "rt", "macros"] }
tokio-util = "0.7"
