[package]
name = "pasque"
version = "0.1.0"
edition = "2021"
publish = false

[dependencies]
async-trait = "=0.1.92"
bytes = "=1.12.1"
futures = "=0.3.34"
ipnetwork = "=0.21.1"
jsonwebtoken = "=9.3.1"
log = "=0.4.35"
octets = "=0.3.7"
quiche = { version = "=0.30.0", default-features = false, features = ["qlog"] }
ring = "=0.17.14"
serde = { version = "=1.0.229", features = ["derive"] }
serde_json = "=1.0.154"
thiserror = "=2.0.21"
tokio = { version = "=1.54.1", features = ["io-util", "macros", "net", "rt-multi-thread", "sync", "time"] }
tokio-util = { version = "=0.7.20", features = ["codec"] }
tun = { version = "=0.8.14", features = ["async"] }
url = "=2.5.8"
