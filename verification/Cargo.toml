[package]
name = "schc_coreconf"
version = "0.1.0"
edition = "2021"
publish = false

[dependencies]
arc-swap = "1"
ciborium = "0.2"
coap-lite = "0.13"
serde = { version = "1", features = ["derive"] }
serde_json = "1"
sha2 = "0.10"
thiserror = "2"
