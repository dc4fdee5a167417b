[package]
name = "oidc_gate"
version = "0.1.0"
edition = "2021"
publish = false

[dependencies]
ammonia = "=4.2.1"
base64 = "=0.23.1"
openidconnect = { version = "=4.0.1", features = ["reqwest-blocking"] }
rand = "=0.10.3"
regex = "=1.13.1"
serde = { version = "=1.0.229", features = ["derive"] }
serde_json = "=1.0.151"
tracing = "=0.1.44"
