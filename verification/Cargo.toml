[package]
name = "drivetrain"
version = "0.1.0"
edition = "2021"
publish = false

[dependencies]
fitparser = "*"
chrono = "*"
geo = "*"
geojson = "*"
serde = { version = "*", features = ["derive"] }
serde_json = "*"
zstd = "*"
csv = "*"
base64 = "*"
reqwest = { version = "*", default-features = false, features = ["rustls-tls"] }
reqwest-middleware = "*"
reqwest-retry = "*"
tokio = { version = "*", features = ["rt-multi-thread", "macros", "sync", "time"] }
futures = "*"
clap = { version = "*", features = ["derive"] }
anyhow = "*"
bincode = "*"
