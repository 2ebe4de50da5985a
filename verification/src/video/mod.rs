//! Video path: access-unit framing, bitrate adaptation, planar conversion.
pub mod access_unit;
pub mod h264;
pub mod webrtc;
