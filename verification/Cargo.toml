[package]
name = "blockchain"
version = "0.1.0"
edition = "2021"
publish = false

[dependencies]
rust-crypto = "0.2"
rust-base58 = "*"
uuid = { version = "1", features = ["v4"] }
time = "0.1"
serde = { version = "1", features = ["derive"] }
serde_derive = "1"
serde_json = "1"
reqwest = { version = "*", default-features = false, features = ["blocking"] }
rustyline = "*"
tiny_http = "*"
url = "2"
