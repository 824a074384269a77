[package]
name = "route_dispatch"
version = "0.1.0"
edition = "2021"
publish = false

[dependencies]
serde = "1"
serde_json = "1"
actix-web = { version = "4", default-features = false }
tokio = { version = "1", features = ["time", "rt", "macros"] }
futures = "0.3"
