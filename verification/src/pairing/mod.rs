//! Pairing with a receiver.

pub mod credentials;
pub mod homekit;
pub mod legacy_pin;
pub mod tlv;
