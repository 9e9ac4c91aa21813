//! HLS playlists.

pub mod laws;
pub mod parser;

pub use parser::{
    looks_like_hls, parse_playlist, HlsMaster, HlsMediaPlaylist, HlsPlaylist, HlsRendition,
    HlsSegment, HlsSegmentKey, HlsVariant,
};
