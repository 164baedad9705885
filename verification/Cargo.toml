[package]
name = "miassistant_core"
version = "0.1.0"
edition = "2021"
publish = false

[dependencies]
aes = "0.8"
base64 = "0.22"
cbc = { version = "0.1", features = ["alloc"] }
clap = { version = "4", features = ["derive"] }
ctrlc = "3"
indicatif = "0.17"
md5 = "0.7"
reqwest = { version = "0.12", default-features = false, features = ["blocking"] }
rusb = "0.9"
serde = { version = "1", features = ["derive"] }
serde_json = "1"
urlencoding = "2"
