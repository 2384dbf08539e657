[package]
name = "entries_core"
version = "0.1.0"
edition = "2021"
publish = false

[dependencies]
uuid = { version = "1", features = ["v4"] }
ed25519-dalek = { version = "2", features = ["rand_core"] }
rand = "0.8"
rsa = "0.9"
sha1 = "0.10"

[dev-dependencies]
base64 = "0.21"
hex = "0.4"
