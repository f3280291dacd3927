[package]
name = "bidt_glossar_server"
version = "0.1.0"
edition = "2021"
publish = false

[dependencies]
base64 = "=0.23.1"
chrono = "=0.4.45"
jsonwebtoken = { version = "=11.1.0", features = ["rust_crypto"] }
ring = "=0.17.14"
serde_json = "=1.0.151"
