[package]
name = "gm_code"
version = "0.1.0"
edition = "2021"
publish = false

[dependencies]
anyhow = "=1.0.104"
camino = "=1.2.6"
flexi_logger = "=0.31.10"
itertools = "=0.15.0"
log = "=0.4.34"
lsp-server = "=0.10.0"
lsp-types = "=0.97.0"
serde = { version = "=1.0.229", features = ["derive"] }
serde_json = "=1.0.151"
strum = "=0.28.0"
strum_macros = "=0.28.0"
url = { version = "=2.5.8", features = ["serde"] }
yy-typings = "=0.6.0"
