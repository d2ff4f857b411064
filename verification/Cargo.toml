[package]
name = "lattice"
version = "0.1.0"
edition = "2021"
publish = false

[dependencies]
anyhow = "1"
async-trait = "0.1"
candle-core = { version = "*", default-features = false }
clap = { version = "4", features = ["derive"] }
directories = "*"
ed25519-dalek = { version = "2", features = ["pkcs8", "pem"] }
half = "2"
hex = "0.4"
hmac = "*"
libc = "0.2"
mdns-sd = "*"
postcard = { version = "1", features = ["use-std"] }
quinn = "0.11"
rand = "0.9"
rcgen = "*"
rustls = { version = "0.23", default-features = false, features = ["ring", "std"] }
serde = { version = "1", features = ["derive"] }
serde_bytes = "0.11"
serde_json = "1"
sha2 = "*"
spake2 = "0.4"
subtle = "2"
thiserror = "*"
tokio = { version = "1", features = ["full"] }
x509-parser = "*"
