[package]
name = "netscan"
version = "0.1.0"
edition = "2021"
publish = false

[dependencies]
regex = "1"
serde = { version = "1", features = ["derive"] }
tokio = { version = "1", features = ["net", "io-util", "time", "rt", "sync"] }
futures = "0.3"
ipnetwork = "*"
surge-ping = "*"
