[package]
name = "utxo_index"
version = "0.1.0"
edition = "2021"
publish = false

[dependencies]
bitcoin = "*"
url = "*"
hex = "*"
serde = { version = "*", features = ["derive"] }
serde_json = "*"
