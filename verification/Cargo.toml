[package]
name = "onec_export"
version = "0.1.0"
edition = "2021"
publish = false

[dependencies]
anyhow = "=1.0.104"
base64 = "=0.22.1"
chrono = "=0.4.45"
clap = { version = "=4.6.7", features = ["derive"] }
encoding_rs = "=0.8.44"
flate2 = "=1.1.10"
futures = "=0.3.34"
md-5 = "=0.10.6"
native-windows-gui = "=1.0.13"
reqwest = { version = "=0.12.28", default-features = false, features = ["json"] }
rusqlite = { version = "=0.31.0", features = ["bundled"] }
serde = { version = "=1.0.229", features = ["derive"] }
serde_json = "=1.0.154"
sha2 = "=0.10.9"
single-instance = "=0.3.3"
tiberius = { version = "=0.12.3", default-features = false, features = ["tds73", "winauth"] }
tokio = { version = "=1.54.1", features = ["full"] }
tokio-util = { version = "=0.7.20", features = ["compat"] }
