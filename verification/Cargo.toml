[package]
name = "model_loading"
version = "0.1.0"
edition = "2021"
publish = false

[dependencies]
anyhow = "*"
indicatif = "*"
log = "*"
memmap2 = "*"
safetensors = "*"
serde = { version = "*", features = ["derive"] }
serde_json = "*"
tch = "*"
