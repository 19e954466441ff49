//! Finding receivers.

pub mod browser;
pub mod ipv6;
pub mod resolve;
