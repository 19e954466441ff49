//! AirPlay screen mirroring sender.

pub mod audio;
pub mod binary;
pub mod bytes;
pub mod capture;
pub mod cli;
pub mod codec;
pub mod config;
pub mod crypto;
pub mod debug_log;
pub mod device;
pub mod discovery;
pub mod error;
pub mod feedback;
pub mod http_reply;
pub mod mirroring;
pub mod ntp;
pub mod pairing;
pub mod plist_dates;
pub mod plist_value;
pub mod protocol;
pub mod session;
pub mod text;
pub mod video;
