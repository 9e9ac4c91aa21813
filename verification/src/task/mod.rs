//! Tasks: what they are doing, and how their parts are timed.

pub mod aggregate;
pub mod audio_gap;
pub mod batch;
pub mod buffer;
pub mod content;
pub mod coverage;
pub mod fetch_tuning;
pub mod grouping;
pub mod hls_fmp4;
pub mod hls_run;
pub mod hls_source;
pub mod hls_ts;
pub mod init;
pub mod key_resolver;
pub mod live_tuning;
pub mod manager;
pub mod matching;
pub mod mpd_keys;
pub mod mpd_session;
pub mod planning;

pub use manager::{KeyMode, RunMode, SourceKind, TaskControl, TaskState, TrackSelection};
