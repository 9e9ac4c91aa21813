//! DASH manifests.

pub mod laws;
pub mod parser;

pub use parser::{parse_mpd, MpdError, MpdInfo, Representation, SegmentRef, TrackKind};
