[package]
name = "rdns"
version = "0.1.0"
edition = "2021"
publish = false

[dependencies]
futures-util = "*"
mdns = "*"
nats = "*"
net2 = "*"
serde = { version = "*", features = ["derive"] }
serde_json = "*"
tokio = { version = "*", features = ["macros", "rt-multi-thread", "time"] }
