[package]
name = "ever_subscription"
version = "0.1.0"
edition = "2021"
publish = false

[dependencies]
tokio = { version = "=1.53.2", features = ["sync", "rt-multi-thread", "time", "macros"] }
serde_json = "=1.0.151"
serde = { version = "=1.0.229", features = ["derive"] }
hmac = "=0.13.0"
sha2 = "=0.11.0"
pbkdf2 = "=0.13.0"
ed25519-dalek = "=3.0.0"
anyhow = "=1.0.104"
everscale-network = "=0.5.5"
everscale-crypto = "=0.3.0"
tl-proto = "=0.5.4"
rand = "=0.10.3"
public-ip = "=0.2.2"
tiny-bip39 = "*"
