[package]
name = "ethers_wallet"
version = "0.1.0"
edition = "2021"
publish = false

[dependencies]
coins-bip32 = "=0.13.3"
coins-bip39 = "=0.13.3"
k256 = { version = "=0.13.4", features = ["ecdsa"] }
tiny-keccak = { version = "=2.0.2", features = ["keccak"] }
rand = "=0.9.5"
serde = { version = "=1.0.229", features = ["derive"] }
serde_json = "=1.0.154"
libc = "=0.2.191"
ffi-convert = "=0.8.0"
opaque-pointer = "=0.10.1"

[dev-dependencies]
hex = "=0.4.3"
rlp = "=0.6.1"
