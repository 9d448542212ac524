[package]
name = "rosterdb"
version = "0.1.0"
edition = "2021"
publish = false

[dependencies]
bimap = "=0.6.3"
bincode = "1"
chrono = "=0.4.45"
rand = "=0.8.8"
serde = { version = "*", features = ["derive"] }
serde_json = "*"
tokio = { version = "*", features = ["full"] }
unidecode = "=0.3.0"
warp = { version = "=0.4.3", features = ["server"] }
