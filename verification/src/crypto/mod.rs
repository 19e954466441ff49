//! Keys, ciphers and handshakes.

pub mod chacha;
pub mod chacha64;
pub mod ed25519_pair;
pub mod hkdf_keys;
pub mod mirror_aes;
pub mod mirror_crypto;
pub mod numeral;
pub mod pair_verify;
pub mod primitives;
pub mod legacy_srp;
pub mod srp;
pub mod fairplay;
pub mod fairplay_setup;
