[package]
name = "btcmap"
version = "0.1.0"
edition = "2021"
publish = false

[dependencies]
actix-web = "4"
directories = "5"
env_logger = "0.10"
geo = "0.26"
geojson = "0.24"
log = "0.4"
reqwest = { version = "0.11", default-features = false, features = ["json", "rustls-tls"] }
rusqlite = { version = "0.29", features = ["bundled"] }
serde = { version = "1", features = ["derive"] }
serde_json = "1"
time = { version = "0.3", features = ["formatting", "parsing", "serde-well-known"] }
tokio = { version = "1", features = ["macros", "rt-multi-thread", "time"] }
tracing = "0.1"
