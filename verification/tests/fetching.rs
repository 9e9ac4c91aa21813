//! Downloads that fail.

use dv_hls_gateway::fetch::DownloadFailureKind;

#[test]
fn pressure_statuses_are_limited_to_retry_pressure_errors() {
    assert!(DownloadFailureKind::Timeout.is_concurrency_pressure());
    assert!(DownloadFailureKind::ConnectionReset.is_concurrency_pressure());
    assert!(
        DownloadFailureKind::HttpStatus(429)
            .is_concurrency_pressure()
    );
    assert!(
        DownloadFailureKind::HttpStatus(503)
            .is_concurrency_pressure()
    );
    assert!(!DownloadFailureKind::HttpStatus(403).is_concurrency_pressure());
    assert!(!DownloadFailureKind::HttpStatus(404).is_concurrency_pressure());
    assert!(
        !DownloadFailureKind::HttpStatus(500)
            .is_concurrency_pressure()
    );
}
