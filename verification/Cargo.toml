[package]
name = "classic_rs"
version = "0.1.0"
edition = "2021"
publish = false

[dependencies]
byteorder = "1"
chrono = "0.4"
crossbeam-channel = "0.5"
fern = { version = "0.6", features = ["colored"] }
flate2 = "1"
flume = "0.11"
json = "0.12"
log = "0.4"
md-5 = "0.10"
rand = "0.8"
reqwest = { version = "0.12", features = ["json"] }
serde = { version = "1", features = ["derive"] }
serde_derive = "1"
specs = "*"
tokio = { version = "1", features = ["full"] }
toml = "0.8"
uuid = { version = "1", features = ["v4"] }
