[package]
name = "exchange"
version = "0.1.0"
edition = "2021"
publish = false

[dependencies]
bytecount = "*"
uuid = { version = "*", features = ["v4"] }
clap = { version = "*", features = ["derive"] }
serde = { version = "*", features = ["derive"] }
serde_json = "*"
shellexpand = "*"
log = "*"
env_logger = "*"
anyhow = "*"
subprocess = "*"
tokio = { version = "*", features = ["macros", "rt-multi-thread", "time"] }
reqwest = { version = "*", default-features = false, features = ["json", "rustls-tls"] }
rdkafka = "*"
azure_core = "*"
azure_storage = "*"
azure_storage_blobs = "*"
