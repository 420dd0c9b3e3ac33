[package]
name = "contour_sync"
version = "0.3.0"
edition = "2021"
publish = false

[dependencies]
reqwest = { version = "0.12", default-features = false, features = ["json", "rustls-tls"] }
serde = { version = "1", features = ["derive"] }
serde_json = "1"
tauri = { version = "2", default-features = false }
tokio = { version = "1", features = ["time"] }
url = "2"
zip = { version = "*", default-features = false, features = ["deflate"] }
