//! How a live source is followed.

use vstd::prelude::*;

use crate::config;
use crate::time::{Span, SECOND};

verus! {

/// Segments below this many seconds are put together.
pub const SHORT_SEG_THRESHOLD_S: u64 = 4;

/// Seconds that segments put together should make.
pub const AGGREGATE_TARGET_S: u64 = 8;

/// Newest segments that are held back where nothing else is set.
pub const DEFAULT_PUBLISH_DELAY_SEGMENTS: usize = 1;

/// Segments that a fresh playlist should list.
pub const MIN_INITIAL_PUBLISHED_SEGMENTS: usize = 3;

/// Nanoseconds that are waited at least where a round took too long.
pub const MIN_REFRESH_WAIT_NS: u64 = 250_000_000;

/// Whether a segment is so short that it is put together with others.
pub open spec fn is_short(s: Span) -> bool {
    0 < s.ticks < SHORT_SEG_THRESHOLD_S * s.rate()
}

/// Whether a segment is so short that it is put together with others.
pub fn is_short_segment(duration: Span) -> (r: bool)
    ensures
        r == is_short(duration),
{
    duration.ticks > 0 && (duration.ticks as u128) < SHORT_SEG_THRESHOLD_S as u128
        * duration.ticks_per_second() as u128
}

/// The setting that says how many of the newest segments are held back.
pub fn publish_delay_setting(short_source: bool) -> (r: &'static str)
    ensures
        r@ == (if short_source {
            "MPD_HLS_SHORT_PUBLISH_DELAY_SEGMENTS"@
        } else {
            "MPD_HLS_PUBLISH_DELAY_SEGMENTS"@
        }),
{
    if short_source {
        "MPD_HLS_SHORT_PUBLISH_DELAY_SEGMENTS"
    } else {
        "MPD_HLS_PUBLISH_DELAY_SEGMENTS"
    }
}

/// How many of the newest segments are held back, by the value of the setting.
pub fn publish_delay_segments(is_live: bool, setting: Option<&str>) -> (r: usize)
    ensures
        !is_live ==> r == 0,
        is_live ==> r == config::limited_setting(
            setting,
            usize::MAX as int,
            DEFAULT_PUBLISH_DELAY_SEGMENTS as int,
            1,
        ),
{
    if !is_live {
        return 0;
    }
    config::setting_usize(setting, DEFAULT_PUBLISH_DELAY_SEGMENTS, 1)
}

/// How many segments are put together to reach the target.
pub open spec fn group_of(s: Span) -> int {
    if is_short(s) {
        (AGGREGATE_TARGET_S * s.rate() + s.ticks - 1) / s.ticks as int
    } else {
        1
    }
}

/// How many segments before the newest a live source is entered.
pub open spec fn backfill_of(s: Span, publish_delay: int) -> int {
    let wanted = group_of(s) * (publish_delay + MIN_INITIAL_PUBLISHED_SEGMENTS);
    if wanted > u64::MAX {
        u64::MAX as int
    } else if wanted < 4 {
        4
    } else {
        wanted
    }
}

/// How many segments before the newest a live source is entered: enough that the first playlist
/// lists some behind those that are held back.
pub fn initial_live_backfill_segments(segment_duration: Span, publish_delay: usize) -> (r: u64)
    ensures
        r == backfill_of(segment_duration, publish_delay as int),
        r >= 4,
{
    let group: u128 = if is_short_segment(segment_duration) {
        let whole: u128 = AGGREGATE_TARGET_S as u128 * segment_duration.ticks_per_second() as u128
            + segment_duration.ticks as u128 - 1;
        proof {
            let t = segment_duration.ticks as int;
            assert(whole as int / t <= whole) by (nonlinear_arith)
                requires
                    t >= 1,
                    whole >= 0,
            ;
        }
        whole / segment_duration.ticks as u128
    } else {
        1
    };
    assert(group == group_of(segment_duration));
    let rest: u128 = publish_delay as u128 + MIN_INITIAL_PUBLISHED_SEGMENTS as u128;
    proof {
        assert(group <= 0xc_0000_0000);
        assert(rest <= 0x1_0000_0000_0000_0003);
        assert(group * rest <= 0xc_0000_0000 * 0x1_0000_0000_0000_0003) by (nonlinear_arith)
            requires
                0 <= group <= 0xc_0000_0000,
                0 <= rest <= 0x1_0000_0000_0000_0003,
        ;
    }
    let wanted: u128 = group * rest;
    if wanted > u64::MAX as u128 {
        u64::MAX
    } else if wanted < 4 {
        4
    } else {
        wanted as u64
    }
}

/// `v`, but at least `lo` and at most `hi`.
pub open spec fn clamped(v: int, lo: int, hi: int) -> int {
    if v < lo {
        lo
    } else if v > hi {
        hi
    } else {
        v
    }
}

/// What is left of a wait, or a short one where nothing is.
pub open spec fn remaining(base_ns: int, elapsed_ns: int) -> int {
    if elapsed_ns > base_ns {
        MIN_REFRESH_WAIT_NS as int
    } else {
        base_ns - elapsed_ns
    }
}

/// Nanoseconds before a playlist is fetched again: half its target duration, from the start of the
/// round.
pub open spec fn hls_wait(target: Span, elapsed_ns: int) -> int {
    let base = if target.ticks > 0 {
        clamped(target.ns() as int / 2, SECOND as int, 6 * SECOND)
    } else {
        3 * SECOND
    };
    remaining(base, elapsed_ns)
}

/// Nanoseconds before a manifest is fetched again: a segment, or half of a short one.
pub open spec fn media_wait(segment: Span, elapsed_ns: int) -> int {
    let base = if is_short(segment) {
        clamped(segment.ns() as int / 2, SECOND as int, 6 * SECOND)
    } else if segment.ticks > 0 {
        clamped(segment.ns() as int, SECOND as int, 10 * SECOND)
    } else {
        4 * SECOND
    };
    remaining(base, elapsed_ns)
}

fn clamp(v: u64, lo: u64, hi: u64) -> (r: u64)
    ensures
        r == clamped(v as int, lo as int, hi as int),
{
    if v < lo {
        lo
    } else if v > hi {
        hi
    } else {
        v
    }
}

fn remaining_wait(base_ns: u64, elapsed_ns: u64) -> (r: u64)
    ensures
        r == remaining(base_ns as int, elapsed_ns as int),
{
    if elapsed_ns > base_ns {
        MIN_REFRESH_WAIT_NS
    } else {
        base_ns - elapsed_ns
    }
}

/// Nanoseconds before a playlist is fetched again.
pub fn hls_refresh_wait(target_duration: Span, elapsed_ns: u64) -> (r: u64)
    ensures
        r == hls_wait(target_duration, elapsed_ns as int),
{
    let base: u64 = if target_duration.ticks > 0 {
        clamp(target_duration.to_ns() as u64 / 2, SECOND, 6 * SECOND)
    } else {
        3 * SECOND
    };
    remaining_wait(base, elapsed_ns)
}

/// Nanoseconds before a manifest is fetched again.
pub fn media_refresh_wait(segment_duration: Span, elapsed_ns: u64) -> (r: u64)
    ensures
        r == media_wait(segment_duration, elapsed_ns as int),
{
    let base: u64 = if is_short_segment(segment_duration) {
        clamp(segment_duration.to_ns() as u64 / 2, SECOND, 6 * SECOND)
    } else if segment_duration.ticks > 0 {
        clamp(segment_duration.to_ns() as u64, SECOND, 10 * SECOND)
    } else {
        4 * SECOND
    };
    remaining_wait(base, elapsed_ns)
}

/// A manifest is never waited for longer than ten seconds, a playlist never longer than six.
pub proof fn law_waits_are_bounded(s: Span, elapsed_ns: int)
    requires
        elapsed_ns >= 0,
    ensures
        0 <= hls_wait(s, elapsed_ns) <= 6 * SECOND,
        0 <= media_wait(s, elapsed_ns) <= 10 * SECOND,
{
}

} // verus!
