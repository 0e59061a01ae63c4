[package]
name = "dset"
version = "0.1.0"
edition = "2021"
publish = false

[dependencies]
anyhow = "1"
fancy-regex = "*"
log = "0.4"
md5 = "*"
memmap2 = "0.9"
safetensors = "*"
serde = { version = "1", features = ["derive"] }
serde_json = "1"
tokio = { version = "1", features = ["fs", "rt", "sync"] }
xio = "*"
