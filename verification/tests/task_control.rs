//! States of a task, attempts at a download and the pace of a live source.

use dv_hls_gateway::fetch::failure::{host_label, looks_like_connection_reset, RequestFailure};
use dv_hls_gateway::fetch::retry::{retry_delay, should_retry, Attempt, RetryState};
use dv_hls_gateway::fetch::{DownloadError, DownloadFailureKind};
use dv_hls_gateway::task::fetch_tuning::{AdaptiveFetchTuning, FetchTuningConfig, TuningSettings};
use dv_hls_gateway::task::live_tuning::{
    hls_refresh_wait, initial_live_backfill_segments, is_short_segment, media_refresh_wait,
    publish_delay_segments, publish_delay_setting,
};
use dv_hls_gateway::task::manager::{
    on_demand_idle_timeout_secs, IdleAction, KeyMode, Outcome, RunMode, Stage, TaskControl,
    TaskState,
};
use dv_hls_gateway::time::{Span, SECOND};

fn seconds(n: u64) -> Span {
    Span { ticks: n, scale: 1 }
}

#[test]
fn states_survive_their_number() {
    for s in [
        TaskState::Parsing,
        TaskState::Running,
        TaskState::Paused,
        TaskState::Stopped,
        TaskState::Error,
        TaskState::Finished,
    ] {
        assert_eq!(TaskState::from_u8(s.as_u8()), s);
    }
    assert_eq!(TaskState::from_u8(200), TaskState::Paused);
    assert_eq!(TaskState::Running.label(), "running");
    assert!(TaskState::Parsing.is_active());
    assert!(!TaskState::Paused.is_active());
    assert_eq!(RunMode::default(), RunMode::Always);
    assert_eq!(KeyMode::default(), KeyMode::Static);
}

#[test]
fn an_idle_task_is_suspended_and_woken() {
    let mut t = TaskControl::new(RunMode::OnDemand, 300);
    t.arm();
    assert_eq!((t.state, t.stage), (TaskState::Paused, Stage::AwaitRequest));
    assert_eq!(t.idle_check(1_000), IdleAction::Keep);
    assert!(t.on_request(1_000));
    t.begin(Stage::Woken, 1_000);
    assert_eq!(t.state, TaskState::Running);
    assert!(!t.on_request(1_100));
    assert_eq!(t.playback_idle_secs(1_399), 299);
    assert_eq!(t.idle_check(1_399), IdleAction::Keep);
    assert_eq!(t.idle_check(1_400), IdleAction::Suspend);
    t.settle(Outcome::Cancelled);
    assert_eq!((t.state, t.stage), (TaskState::Paused, Stage::IdlePaused));
    assert!(t.on_request(2_000));
    t.settle(Outcome::Failed);
    assert_eq!(t.idle_check(3_000), IdleAction::Leave);
    assert_eq!(t.stage.label(), "出错");
}

#[test]
fn a_stopped_task_stays_until_it_is_started() {
    let mut t = TaskControl::new(RunMode::OnDemand, 300);
    t.begin(Stage::Resuming, 5);
    assert!(!t.start(6));
    t.stop();
    t.settle(Outcome::Cancelled);
    assert_eq!((t.state, t.stage), (TaskState::Stopped, Stage::Stopped));
    assert!(!t.on_request(7));
    assert!(!t.pause());
    assert!(t.start(8));
    assert!(t.pause());
    t.settle(Outcome::Cancelled);
    assert_eq!((t.state, t.stage), (TaskState::Paused, Stage::Paused));
    assert!(!t.on_request(9));
    t.settle(Outcome::Done);
    assert_eq!(t.state, TaskState::Finished);
    assert_eq!(on_demand_idle_timeout_secs(None), 300);
    assert_eq!(on_demand_idle_timeout_secs(Some("10")), 30);
    let mut always = TaskControl::new(RunMode::Always, 300);
    always.begin(Stage::Resuming, 1);
    assert_eq!(always.idle_check(9_999), IdleAction::Leave);
}

#[test]
fn attempts_are_bounded() {
    let mut state = RetryState::first();
    let mut n = 1;
    while let Some((next, delay)) = state.next(Attempt::Failed(Some(403))) {
        assert!(delay <= 1_500);
        state = next;
        n += 1;
    }
    assert_eq!(n, 4);
    let second = RetryState::first().next(Attempt::TimedOut).unwrap();
    assert_eq!(second.1, 250);
    let third = second.0.next(Attempt::Failed(Some(503))).unwrap();
    assert_eq!(third.1, 500);
    assert!(third.0.next(Attempt::Failed(None)).is_none());
    assert!(RetryState::first().next(Attempt::Failed(Some(404))).is_none());
    assert!(should_retry(Some(429), 2, 0));
    assert!(!should_retry(Some(429), 3, 0));
    assert_eq!(retry_delay(9, 0), 1_500);
    assert_eq!(retry_delay(9, 2), 400);
}

#[test]
fn failures_are_told_apart() {
    assert_eq!(DownloadFailureKind::classify(true, true, Some(500), "x"), DownloadFailureKind::Timeout);
    assert_eq!(DownloadFailureKind::classify(false, true, None, "Broken pipe"), DownloadFailureKind::ConnectionReset);
    assert_eq!(DownloadFailureKind::classify(false, true, None, "dns"), DownloadFailureKind::Network);
    assert_eq!(DownloadFailureKind::classify(false, false, Some(500), "x"), DownloadFailureKind::HttpStatus(500));
    assert_eq!(DownloadFailureKind::classify(false, false, None, "x"), DownloadFailureKind::Other);
    assert!(looks_like_connection_reset("HTTP2 error: stream error"));
    let f = RequestFailure::from_status(404, "404 Not Found", &"b".repeat(300));
    assert_eq!(f.message, format!("upstream returned status 404 Not Found: {}", "b".repeat(240)));
    assert_eq!(
        RequestFailure::from_status(500, "500 E", "").message,
        "upstream returned status 500 E"
    );
    assert_eq!(RequestFailure::timeout(12).message, "timed out after 12s");
    let e = DownloadError::new("http://h/x", f);
    assert_eq!(e.kind(), DownloadFailureKind::HttpStatus(404));
    assert!(!e.is_concurrency_pressure());
    assert!(e
        .message("404 Not Found")
        .starts_with("failed to download http://h/x (http_status_404 Not Found): upstream"));
    assert_eq!(
        DownloadError::new("u", RequestFailure::other("why")).message(""),
        "failed to download u (other): why"
    );
    assert_eq!(host_label("https://a.b:8/c"), "a.b");
    assert_eq!(host_label("nothing"), "<unknown>");
}

#[test]
fn waits_stay_in_their_bounds() {
    assert!(is_short_segment(seconds(3)));
    assert!(!is_short_segment(seconds(4)));
    assert!(!is_short_segment(seconds(0)));
    assert_eq!(hls_refresh_wait(seconds(6), 0), 3 * SECOND);
    assert_eq!(hls_refresh_wait(seconds(60), SECOND), 5 * SECOND);
    assert_eq!(hls_refresh_wait(seconds(0), 0), 3 * SECOND);
    assert_eq!(hls_refresh_wait(seconds(6), 9 * SECOND), 250_000_000);
    assert_eq!(media_refresh_wait(seconds(3), 0), 3 * SECOND / 2);
    assert_eq!(media_refresh_wait(seconds(8), SECOND), 7 * SECOND);
    assert_eq!(media_refresh_wait(seconds(99), 0), 10 * SECOND);
    assert_eq!(initial_live_backfill_segments(seconds(6), 1), 4);
    assert_eq!(initial_live_backfill_segments(seconds(2), 1), 16);
    assert_eq!(publish_delay_segments(false, Some("4")), 0);
    assert_eq!(publish_delay_segments(true, Some("4")), 4);
    assert_eq!(publish_delay_segments(true, None), 1);
    assert_eq!(publish_delay_setting(true), "MPD_HLS_SHORT_PUBLISH_DELAY_SEGMENTS");
}

fn settings() -> TuningSettings<'static> {
    TuningSettings {
        adaptive: None,
        shared: Some("3"),
        short_shared: None,
        segment: Some("5"),
        short_segment: None,
        min_shared: Some("2"),
        short_min_shared: None,
        min_segment: Some("9"),
        short_min_segment: None,
        slow_fetch_ms: None,
        fast_fetch_ms: None,
        fast_streak: Some("1"),
        failure_streak: Some("1"),
        slow_scale_down: Some("yes"),
        slow_cooldown_ms: Some("750"),
    }
}

#[test]
fn limits_stay_between_their_bounds() {
    let mut t = AdaptiveFetchTuning::new(FetchTuningConfig::from_settings(&settings()));
    assert!(t.configure_source(false));
    assert!(!t.configure_source(false));
    assert_eq!(t.snapshot().shared_download_concurrency, 3);
    assert_eq!(t.segment_fetch_concurrency(), 9);
    for i in 0..9u64 {
        t.record_failure(i);
    }
    assert_eq!(t.snapshot().shared_download_concurrency, 2);
    assert_eq!(t.segment_fetch_concurrency(), 5);
    for i in 0..9u64 {
        t.record_success(1, i);
    }
    assert_eq!(t.snapshot().shared_download_concurrency, 3);
    t.record_success(4 * SECOND, 0);
    assert_eq!(t.snapshot().shared_download_concurrency, 2);
    assert_eq!(t.segment_fetch_concurrency(), 8);
    t.record_success(4 * SECOND, 749_000_000);
    assert_eq!(t.segment_fetch_concurrency(), 8);
    t.record_success(4 * SECOND, 750_000_000);
    assert_eq!(t.segment_fetch_concurrency(), 7);
}

#[test]
fn places_are_handed_out_up_to_the_limit() {
    let mut t = AdaptiveFetchTuning::new(FetchTuningConfig::from_settings(&settings()));
    assert!(t.try_acquire() && t.try_acquire() && t.try_acquire());
    assert!(!t.try_acquire());
    assert_eq!(t.snapshot().in_flight_downloads, 3);
    t.release();
    assert!(t.try_acquire());
}
