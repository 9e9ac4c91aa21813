//! Decryption: CENC and CBCS samples, whole HLS segments, and the key identifiers of PlayReady.

pub mod cenc;
pub mod hls;
pub mod playready;

pub use cenc::Decryptor;
