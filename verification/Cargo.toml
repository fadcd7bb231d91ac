[package]
name = "vanity_bitcoin"
version = "0.1.0"
edition = "2021"
publish = false

[dependencies]
sha2 = "0.10"
ripemd = "0.1"
secp256k1 = "0.29"
bip39 = "2.0"
bip32 = "0.5"
bech32 = "0.9"
hex = "0.4"
serde = { version = "1", features = ["derive"] }
serde_json = "1"
rand = "0.8"
clap = { version = "4", features = ["derive"] }
anyhow = "1"
rayon = "1"

[dev-dependencies]
bs58 = "0.5"
