//! Segments in memory and the playlists over them.
//!
//! A live list publishes the last segments of a window and holds back the newest ones. Behind the
//! window a few more stay in memory for requests under way.

pub mod output;
pub mod playlist;
pub mod state;

pub use output::{HlsOutput, SubtitleOutput, SubtitleRendition, SubtitleSegment, TsSegment};
pub use playlist::{format_webvtt_segment, hls_quote};
