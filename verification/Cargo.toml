[package]
name = "pocket_rom_sync"
version = "0.1.0"
edition = "2021"
publish = false

[dependencies]
extism-pdk = "1"
serde = { version = "1", features = ["derive"] }
serde_json = "1"
