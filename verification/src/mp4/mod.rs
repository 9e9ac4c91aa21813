//! The ISO-BMFF boxes that the gateway reads.
//!
//! Init segments: `hvcC`, `avcC`, `dvcC`, `esds`, `mdhd` and `tenc`. Media segments: `moof` with
//! its `traf`, and `mdat`.

pub mod aac;
pub mod avcc;
pub mod boxes;
pub mod dvcc;
pub mod hvcc;
pub mod init_laws;
pub mod laws;
pub mod mdhd;
pub mod sample;

pub mod tenc;

pub use dvcc::DoviConfig;
pub use hvcc::ParamSets;
pub use tenc::TrackEncryption;
