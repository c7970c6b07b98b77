[package]
name = "brigid"
version = "0.1.0"
edition = "2021"
publish = false

[dependencies]
sha3 = "0.10"
hkdf = "0.12"
base64ct = { version = "1", features = ["alloc"] }
bs58 = "0.5"
url = "2"
serde = { version = "1", features = ["derive"] }
serde_json = { version = "1", features = ["raw_value"] }
ed25519-dalek = { version = "2", features = ["rand_core", "pkcs8"] }
pkcs8 = { version = "0.10", features = ["alloc"] }
rand_core = { version = "0.6", features = ["getrandom"] }
jsonwebtoken = { version = "10", default-features = false, features = ["rust_crypto"] }
uuid = { version = "1", features = ["v4"] }
tokio = { version = "1", features = ["rt-multi-thread", "net", "macros"] }
reqwest = { version = "0.12", default-features = false, features = ["json", "rustls-tls"] }
