[package]
name = "comstar"
version = "0.1.0"
edition = "2021"
publish = false

[dependencies]
anyhow = "=1.0.104"
async-compression = { version = "=0.4.51", features = ["tokio", "gzip"] }
chrono = { version = "=0.4.45", features = ["serde"] }
futures = "=0.3.34"
google-cloud-default = { version = "=0.4.0", features = ["storage"] }
google-cloud-storage = "=0.11.1"
ignore = "=0.4.33"
indicatif = "=0.17.11"
mime_guess = "=2.0.5"
path-slash = "=0.2.1"
relative-path = { version = "=1.9.3", features = ["serde"] }
reqwest = { version = "=0.11.27", features = ["json", "stream"] }
serde = { version = "=1.0.229", features = ["derive"] }
serde_json = "=1.0.154"
sha2 = "=0.10.9"
structopt = "=0.3.26"
tokio = { version = "=1.54.1", features = ["full"] }
tokio-util = { version = "=0.7.20", features = ["io"] }
url = { version = "=2.5.8", features = ["serde"] }
