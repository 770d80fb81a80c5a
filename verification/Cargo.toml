[package]
name = "f_boom"
version = "0.1.0"
edition = "2021"
publish = false

[dependencies]
httparse = "1"
bytes = "1"
num_cpus = "1"
serde = { version = "1", features = ["derive"] }
toml = "*"
clap = "4"
tokio = { version = "1", features = ["full"] }
tokio-util = "*"
flume = "*"
futures = "*"
futures-util = { version = "*", features = ["sink"] }
reqwest = { version = "0.12", default-features = false, features = ["http2"] }
tonic = "0.12"
prost = "0.13"
tokio-tungstenite = "*"
sysinfo = "*"
cpu_timer = "*"
mimalloc = "*"
axum = "*"
