[package]
name = "huddle_core"
version = "0.1.0"
edition = "2021"
publish = false

[dependencies]
argon2 = "=0.5.3"
base64 = "=0.22.1"
bip39 = "=2.2.2"
chacha20poly1305 = "=0.10.1"
dirs = "=7.0.0"
ed25519-dalek = { version = "=2.2.0", features = ["rand_core"] }
hex = "=0.4.3"
hkdf = "=0.12.4"
libp2p = { version = "=0.57.1", default-features = false, features = ["ed25519"] }
ml-kem = { version = "=0.3.4", features = ["zeroize"] }
parking_lot = "=0.12.5"
rand = "=0.8.8"
rustls = { version = "=0.23.46", default-features = false, features = ["ring", "std"] }
serde_json = "=1.0.154"
sha2 = "=0.10.9"
thiserror = "=2.0.21"
tokio = { version = "=1.54.1", features = ["sync", "time", "rt", "macros"] }
tracing = "=0.1.44"
vodozemac = "=0.11.1"
x25519-dalek = { version = "=2.0.1", features = ["static_secrets"] }
zeroize = "=1.9.1"
