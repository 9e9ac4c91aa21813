//! A gateway that remuxes DASH and HLS fragmented MP4 into HLS over MPEG-TS.

pub mod clock;
pub mod config;
pub mod crypto;
pub mod fetch;
pub mod hevc;
pub mod hls;
pub mod mp4;
pub mod mpd;
pub mod segment;
pub mod server;
pub mod subtitle;
pub mod task;
pub mod text;
pub mod time;
pub mod ts;
pub mod web;
pub mod wire;
pub mod xml;
