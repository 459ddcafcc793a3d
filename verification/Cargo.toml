[package]
name = "neutrino_ble"
version = "0.1.0"
edition = "2021"
publish = false

[dependencies]
async-trait = "0.1"
bytes = "1"
iroh = { version = "*", features = ["address-lookup-mdns"] }
n0-future = "*"
rustls = { version = "0.23", default-features = false, features = ["ring", "std"] }
serde = { version = "1", features = ["derive"] }
serde_json = "1"
tokio = { version = "1", features = ["rt", "macros", "sync", "time", "net"] }
tracing = "0.1"

[dev-dependencies]
ed25519-dalek = "*"
