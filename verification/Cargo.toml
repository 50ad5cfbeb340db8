[package]
name = "sapphillon_core"
version = "0.1.0"
edition = "2021"
publish = false

[dependencies]
url = "=2.5.8"
serde = { version = "=1.0.229", features = ["derive"] }
serde_json = "=1.0.154"
indexmap = { version = "=2.14.2", features = ["serde"] }
thiserror = "=2.0.21"
prost = "=0.14.4"
abi_stable = "=0.11.3"
extism = { version = "=1.21.0", default-features = false }
