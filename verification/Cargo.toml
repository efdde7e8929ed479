[package]
name = "teetotum_plugins"
version = "0.1.0"
edition = "2021"
publish = false

[dependencies]
serde = { version = "=1.0.229", features = ["derive"] }
serde_json = "=1.0.154"
sha2 = "=0.10.9"
teetotum-pack = "=0.1.0"
teetotum-face = "=0.1.0"
ureq = "=3.5.1"

[dev-dependencies]
teetotum-pack = { version = "=0.1.0", features = ["std"] }
ed25519-compact = { version = "=2.6.0", default-features = false }
