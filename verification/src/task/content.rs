//! Whether a media segment that was fetched is complete, and how often it is fetched again.

use vstd::prelude::*;

use super::buffer;
use super::matching::{MIN_MEDIA_COVERAGE_DEN, MIN_MEDIA_COVERAGE_NUM};
use crate::mp4::sample;
use crate::mp4::sample::{parse_media_segment, ParsedSegment};
use crate::text;

verus! {

/// How often a segment is fetched until it is complete.
pub const MEDIA_CONTENT_ATTEMPTS: usize = 6;

/// Milliseconds before the first new attempt.
pub const MEDIA_CONTENT_RETRY_BASE_MS: u64 = 250;

/// What is wrong with a media segment.
#[derive(Debug, Clone, Copy, PartialEq, Eq, Structural)]
pub enum ContentError {
    NoTable,
    NoSamples,
    TooShort { actual: u64, expected: u64 },
}

impl ContentError {
    pub open spec fn text(self) -> Seq<char> {
        match self {
            ContentError::NoTable => "missing fMP4 sample table"@,
            ContentError::NoSamples => "no samples"@,
            ContentError::TooShort { actual, expected } => "duration "@ + text::decimal(
                actual as int,
            ) + "/"@ + text::decimal(expected as int) + " below coverage threshold"@,
        }
    }

    /// The error in words.
    pub fn message(&self) -> (r: String)
        ensures
            r@ == self.text(),
    {
        match self {
            ContentError::NoTable => text::clone_text("missing fMP4 sample table"),
            ContentError::NoSamples => text::clone_text("no samples"),
            ContentError::TooShort { actual, expected } => {
                let mut out: String = text::clone_text("duration ");
                text::push_decimal(&mut out, *actual);
                text::push_str(&mut out, "/");
                text::push_decimal(&mut out, *expected);
                text::push_str(&mut out, " below coverage threshold");
                out
            },
        }
    }
}

/// `v * k`, within 64 bits.
pub open spec fn capped_product(v: u64, k: int) -> int {
    if v * k > u64::MAX {
        u64::MAX as int
    } else {
        v * k
    }
}

fn times(v: u64, k: u64) -> (r: u64)
    requires
        k <= 16,
    ensures
        r == capped_product(v, k as int),
{
    assert(v * k <= 0xffff_ffff_ffff_ffff * 16) by (nonlinear_arith)
        requires
            0 <= v <= 0xffff_ffff_ffff_ffff,
            0 <= k <= 16,
    ;
    let p: u128 = v as u128 * k as u128;
    if p > u64::MAX as u128 {
        u64::MAX
    } else {
        p as u64
    }
}

/// What is wrong with a media segment: it has to hold nine tenths of the time that is expected,
/// where that is known.
pub open spec fn content_error(data: Seq<u8>, expected: Option<u64>) -> Option<ContentError> {
    match sample::segment_of(data, None) {
        None => Some(ContentError::NoTable),
        Some(s) => {
            let actual = buffer::ticks_of(s.samples);
            if s.samples.len() == 0 {
                Some(ContentError::NoSamples)
            } else if expected is Some && expected->0 > 0 && capped_product(
                actual,
                MIN_MEDIA_COVERAGE_DEN as int,
            ) < capped_product(expected->0, MIN_MEDIA_COVERAGE_NUM as int) {
                Some(ContentError::TooShort { actual, expected: expected->0 })
            } else {
                None
            }
        },
    }
}

/// Tells whether a media segment is complete.
pub fn validate_media_coverage(data: &[u8], expected_duration_ts: Option<u64>) -> (r: Result<
    (),
    ContentError,
>)
    ensures
        match r {
            Ok(()) => content_error(data@, expected_duration_ts) is None,
            Err(e) => content_error(data@, expected_duration_ts) == Some(e),
        },
{
    let p: ParsedSegment = match parse_media_segment(data) {
        Some(p) => p,
        None => return Err(ContentError::NoTable),
    };
    assert(p@.samples.len() == p.samples@.len());
    if p.samples.len() == 0 {
        return Err(ContentError::NoSamples);
    }
    if let Some(expected) = expected_duration_ts {
        if expected > 0 {
            let actual: u64 = buffer::total_ticks(&p);
            if times(actual, MIN_MEDIA_COVERAGE_DEN) < times(expected, MIN_MEDIA_COVERAGE_NUM) {
                return Err(ContentError::TooShort { actual, expected });
            }
        }
    }
    Ok(())
}

/// Milliseconds before the attempt behind `attempt`.
pub open spec fn content_delay_ms(attempt: int) -> int {
    if MEDIA_CONTENT_RETRY_BASE_MS * attempt < 1_000 {
        MEDIA_CONTENT_RETRY_BASE_MS * attempt
    } else {
        1_000
    }
}

/// Milliseconds before the attempt behind `attempt`: more each time, and no more than a second.
pub fn media_content_retry_delay(attempt: usize) -> (r: u64)
    ensures
        r == content_delay_ms(attempt as int),
{
    if attempt >= 4 {
        1_000
    } else {
        MEDIA_CONTENT_RETRY_BASE_MS * attempt as u64
    }
}

/// What follows an attempt to fetch a segment.
#[derive(Debug, Clone, Copy, PartialEq, Eq, Structural)]
pub enum ContentStep {
    /// The segment is complete.
    Accept,
    /// It is fetched again, after these milliseconds.
    Retry(u64),
    /// It stays incomplete.
    GiveUp(ContentError),
}

/// What follows the attempt `attempt`, which brought `data`.
pub open spec fn content_step(attempt: int, data: Seq<u8>, expected: Option<u64>) -> ContentStep {
    match content_error(data, expected) {
        None => ContentStep::Accept,
        Some(e) => if attempt < MEDIA_CONTENT_ATTEMPTS {
            ContentStep::Retry(content_delay_ms(attempt) as u64)
        } else {
            ContentStep::GiveUp(e)
        },
    }
}

/// What follows the attempt `attempt`, which brought `data`. The first attempt is 1.
pub fn judge_content(attempt: usize, data: &[u8], expected: Option<u64>) -> (r: ContentStep)
    ensures
        r == content_step(attempt as int, data@, expected),
{
    match validate_media_coverage(data, expected) {
        Ok(()) => ContentStep::Accept,
        Err(e) => {
            if attempt < MEDIA_CONTENT_ATTEMPTS {
                ContentStep::Retry(media_content_retry_delay(attempt))
            } else {
                ContentStep::GiveUp(e)
            }
        },
    }
}

/// The last attempt is never followed by another.
pub proof fn law_content_attempts_are_bounded(attempt: int, data: Seq<u8>, expected: Option<u64>)
    requires
        attempt >= MEDIA_CONTENT_ATTEMPTS,
    ensures
        !(content_step(attempt, data, expected) is Retry),
{
}

} // verus!
