//! Downloads: what a failure means, and when to try again.

pub mod failure;
pub mod retry;

pub use failure::{DownloadError, DownloadFailureKind, RequestFailure};
pub use retry::{Attempt, RetryState};
