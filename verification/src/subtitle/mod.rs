//! Subtitles: WebVTT and TTML, plain or inside MP4 fragments, as the body of WebVTT segments.

pub mod cue;
pub mod fragment;
pub mod laws;
pub mod time;
pub mod ttml;
pub mod webvtt;

pub use fragment::{fragment_to_vtt_body, SubtitleAccumulator};
