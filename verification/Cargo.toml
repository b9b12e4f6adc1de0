[package]
name = "scx_teddy"
version = "0.1.0"
edition = "2021"
publish = false

[dependencies]
anyhow = "1"
clap = { version = "4", features = ["derive"] }
ctrlc = "3"
libbpf-rs = "*"
plain = "0.2"
scx_utils = "*"
serde = { version = "1", features = ["derive"] }
serde_json = "1"
