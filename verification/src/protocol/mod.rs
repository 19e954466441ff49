//! The control protocol: requests, replies, and the rules between them.

pub mod airplay_conn;
pub mod rtsp_reply;
pub mod pair_verify;
pub mod fp_setup;
pub mod http;
pub mod mirror;
pub mod rtsp;
pub mod alac;
pub mod audio_rtp;
