[package]
name = "embedded_tls"
version = "0.1.0"
edition = "2021"
publish = false

[dependencies]
der = "=0.8.3"
heapless = "=0.9.3"
rsa = { version = "=0.9.10", default-features = false }
defmt = "=1.2.0"
sha2 = "=0.11.1"
hmac = "=0.13.0"
aes-gcm = "=0.11.1"
p256 = { version = "=0.14.0", features = ["ecdh"] }
p384 = "=0.14.0"
ed25519-dalek = "=3.0.0"
