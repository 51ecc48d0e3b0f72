[package]
name = "rili"
version = "0.1.0"
edition = "2021"
publish = false

[dependencies]
chrono = "0.4"
chinese-lunisolar-calendar = "*"
lunar_rust = "*"
rusqlite = { version = "*", features = ["bundled"] }
url = "2"
quick-xml = "*"
base64 = "0.22"
ureq = { version = "2", default-features = false }
serde = { version = "1", features = ["derive"] }
serde_json = "1"
clap = { version = "4", features = ["derive"] }
directories = "*"
anyhow = "1"
