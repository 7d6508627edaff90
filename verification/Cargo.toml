[package]
name = "batch_client"
version = "0.1.0"
edition = "2021"
publish = false

[dependencies]
anyhow = "1"
async-channel = "1"
async-stream = "0.3"
bytes = "1"
chrono = "0.4"
hound = "3"
http = "0.2"
prost = "0.9"
structopt = "0.3"
thiserror = "1"
tokio = { version = "1", features = ["full"] }
tonic = { version = "0.6", features = ["tls", "tls-roots"] }
tracing = "0.1"
tracing-log = "0.1"
tracing-subscriber = { version = "0.3", features = ["env-filter"] }
