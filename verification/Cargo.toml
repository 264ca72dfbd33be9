[package]
name = "gw2api_http"
version = "0.1.0"
edition = "2021"
publish = false

[dependencies]
async-trait = "0.1"
chrono = { version = "0.4", default-features = false, features = ["clock", "std"] }
either = "1"
futures = "0.3"
fxhash = "0.2"
hyper = { version = "0.14", features = ["client", "http1"] }
serde = { version = "1", features = ["derive"] }
serde_json = "1"
tokio = { version = "1", features = ["sync", "rt"] }
