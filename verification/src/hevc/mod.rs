//! HEVC and H.264 bitstreams: NAL types, access units, Annex-B, parameter sets.

pub mod annexb;
pub mod h264;
pub mod laws;
pub mod nal;
pub mod sps;
