//! TLS 1.3 handshake building blocks: HKDF over an abstract hash, the DER
//! encodings of ECDSA signatures and SEC1 private keys, the content signed in a
//! `CertificateVerify` message, and the encodings of a few handshake messages.

pub mod error;
pub mod crypto;
pub mod rustcrypto;
pub mod byte_vec;
pub mod der;
pub mod buffer;
pub mod parse_buffer;
pub mod handshake;
pub mod signing;
pub mod certificate_verify;
pub mod ecdh;
