[package]
name = "epaper7in3f"
version = "0.1.0"
edition = "2021"
publish = false

[dependencies]
anyhow = "1"
esp-idf-hal = "0.45"
esp-idf-svc = "0.51"
log = "0.4"
