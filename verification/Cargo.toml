[package]
name = "almeta_p2p"
version = "0.1.0"
edition = "2021"
publish = false

[dependencies]
md5 = "0.7"
serde = { version = "1", features = ["derive"] }
serde_json = "1"
