[package]
name = "shadevpn-native"
version = "0.7.0"
edition = "2021"
publish = false

[dependencies]
aes-gcm = "0.10"
base64 = "0.22"
chacha20poly1305 = "0.10"
hex = "0.4"
hkdf = "0.12"
hmac = "0.12"
jni = "0.21"
libc = "0.2"
rand_core = { version = "0.6", features = ["getrandom"] }
rsa = "0.9"
serde = { version = "1", features = ["derive"] }
serde_json = "1"
sha2 = { version = "0.10", features = ["oid"] }
x25519-dalek = { version = "2", features = ["static_secrets"] }
