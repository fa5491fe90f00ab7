[package]
name = "dag-jwe"
version = "0.1.0"
edition = "2021"
publish = false

[dependencies]
anyhow = "1"
base64 = "0.21"
bs58 = "0.4"
byteorder = "1"
chacha20poly1305 = "0.10"
js-sys = "0.3"
libipld = { version = "0.12", default-features = false, features = ["dag-cbor"] }
rand_chacha = "0.3"
serde = { version = "1", features = ["derive"] }
serde_json = "1"
serde-wasm-bindgen = "0.4"
sha2 = "0.10"
unsigned-varint = "0.7"
wasm-bindgen = "0.2"
x25519-dalek = { version = "2", features = ["static_secrets"] }
