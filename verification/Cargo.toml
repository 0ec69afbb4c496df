[package]
name = "proving_api"
version = "0.1.0"
edition = "2021"
publish = false

[dependencies]
base64 = "=0.23.1"
serde = { version = "=1.0.229", features = ["derive"] }
reqwest = { version = "=0.13.5", default-features = false, features = ["json", "query"] }
async-trait = "=0.1.92"
alloy-primitives = { version = "=1.7.3", features = ["serde"] }

[dev-dependencies]
serde_json = "=1.0.151"
