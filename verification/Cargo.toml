[package]
name = "stagelx"
version = "0.1.0"
edition = "2021"
publish = false

[dependencies]
serde = { version = "1", features = ["derive"] }
serde_json = "1"
thiserror = "2"
quick-xml = { version = "0.37", features = ["serialize"] }
zip = { version = "2", default-features = false, features = ["deflate"] }
crossbeam-channel = "0.5"
socket2 = "0.5"
rosc = "0.10"
serialport = { version = "4", default-features = false }
