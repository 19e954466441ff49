//! Video: picture geometry, access units, packets and the stream of frames.

pub mod geometry;
pub mod mirror_packet;
pub mod encoder;
pub mod pacing;
pub mod synthetic;
pub mod stream;
