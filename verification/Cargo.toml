[package]
name = "astra-dns"
version = "0.1.0"
edition = "2021"
publish = false

[dependencies]
async-trait = "0.1"
clap = { version = "4", features = ["derive"] }
hickory-client = "0.25"
hickory-proto = "0.25"
hickory-resolver = { version = "0.25", features = ["serde"] }
hickory-server = { version = "0.25", features = ["resolver"] }
ipnet = "2"
libc = "0.2"
metrics = "0.24"
metrics-process = "2"
regex = "1"
reqwest = { version = "0.12", default-features = false, features = ["rustls-tls"] }
serde = { version = "1", features = ["derive"] }
serde_yaml = "0.9"
socket2 = "0.5"
time = "0.3"
tokio = { version = "1", features = ["macros", "net", "rt-multi-thread", "signal", "sync", "time"] }
tracing = "0.1"
tracing-subscriber = { version = "0.3", features = ["env-filter"] }
