//! How many downloads run at a time.

use dv_hls_gateway::task::fetch_tuning::{
    AdaptiveFetchTuning, FetchTuningConfig, TuningSettings,
};

const MILLISECOND: u64 = 1_000_000;
const SECOND: u64 = 1_000 * MILLISECOND;

fn no_settings() -> TuningSettings<'static> {
    TuningSettings {
        adaptive: None,
        shared: None,
        short_shared: None,
        segment: None,
        short_segment: None,
        min_shared: None,
        short_min_shared: None,
        min_segment: None,
        short_min_segment: None,
        slow_fetch_ms: None,
        fast_fetch_ms: None,
        fast_streak: None,
        failure_streak: None,
        slow_scale_down: None,
        slow_cooldown_ms: None,
    }
}

fn tuning_with_defaults() -> AdaptiveFetchTuning {
    AdaptiveFetchTuning::new(FetchTuningConfig::from_settings(&no_settings()))
}

#[test]
fn short_source_uses_throughput_first_defaults() {
    let mut tuning = tuning_with_defaults();
    tuning.configure_source(true);
    let snapshot = tuning.snapshot();
    assert_eq!(snapshot.shared_download_concurrency, 10);
    assert_eq!(snapshot.segment_fetch_concurrency, 10);
}

#[test]
fn isolated_failure_keeps_concurrency() {
    let mut tuning = tuning_with_defaults();
    tuning.configure_source(true);
    tuning.record_failure(0);
    let snapshot = tuning.snapshot();
    assert_eq!(snapshot.shared_download_concurrency, 10);
    assert_eq!(snapshot.segment_fetch_concurrency, 10);
}

#[test]
fn consecutive_failures_scale_down_to_short_minimums() {
    let mut tuning = tuning_with_defaults();
    tuning.configure_source(true);
    for _ in 0..8 {
        tuning.record_failure(0);
    }
    let snapshot = tuning.snapshot();
    assert_eq!(snapshot.shared_download_concurrency, 8);
    assert_eq!(snapshot.segment_fetch_concurrency, 6);
}

#[test]
fn ignored_failure_breaks_pressure_failure_streak() {
    let mut tuning = tuning_with_defaults();
    tuning.configure_source(false);
    tuning.record_failure(0);
    tuning.record_ignored_failure();
    tuning.record_failure(0);
    let snapshot = tuning.snapshot();
    assert_eq!(snapshot.shared_download_concurrency, 10);
    assert_eq!(snapshot.segment_fetch_concurrency, 10);
}

#[test]
fn slow_success_does_not_scale_down_by_default() {
    let mut tuning = tuning_with_defaults();
    tuning.configure_source(true);
    tuning.record_success(30 * SECOND, 0);
    let snapshot = tuning.snapshot();
    assert_eq!(snapshot.shared_download_concurrency, 10);
    assert_eq!(snapshot.segment_fetch_concurrency, 10);
}

#[test]
fn consecutive_fast_fetches_recover_one_step() {
    let mut tuning = tuning_with_defaults();
    tuning.configure_source(false);
    tuning.record_failure(0);
    tuning.record_failure(0);
    let reduced = tuning.snapshot();
    assert_eq!(reduced.shared_download_concurrency, 9);
    assert_eq!(reduced.segment_fetch_concurrency, 9);

    for _ in 0..8 {
        tuning.record_success(50 * MILLISECOND, 0);
    }
    let recovered = tuning.snapshot();
    assert_eq!(recovered.shared_download_concurrency, 10);
    assert_eq!(recovered.segment_fetch_concurrency, 10);
}
