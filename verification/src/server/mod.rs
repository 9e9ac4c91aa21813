//! What the HTTP service answers: lists of tracks, new tasks, playlists and segments.

pub mod api;
pub mod auth;
pub mod create;
pub mod hls;


pub use api::{CreateReq, CreateResp, ParseReq, ParseResp, TrackOut};
pub use hls::{PlaylistQuery, SegPath};
