//! The text of playlists.

use vstd::prelude::*;

use super::state;
use super::state::LIVE_GRACE_SEGMENTS;
use crate::text;
use crate::time::SECOND;

verus! {

/// The greater of two.
pub(crate) fn greater(a: u64, b: u64) -> (r: u64)
    ensures
        r == state::max64(a, b),
{
    if a >= b {
        a
    } else {
        b
    }
}

/// Whole seconds that a duration does not exceed.
pub fn seconds_up(ns: i64) -> (r: u64)
    ensures
        r == state::ceil_seconds(ns),
{
    if ns <= 0 {
        return 0;
    }
    let n: u64 = ns as u64;
    n / SECOND + if n % SECOND > 0 {
        1
    } else {
        0
    }
}

/// How many of the oldest of `total` segments are dropped.
pub(crate) fn overflow(total: usize, window: usize, delay: usize) -> (r: usize)
    ensures
        r <= total,
        window > 0 && total > window + delay + LIVE_GRACE_SEGMENTS ==> r == total - (window + delay
            + LIVE_GRACE_SEGMENTS),
        !(window > 0 && total > window + delay + LIVE_GRACE_SEGMENTS) ==> r == 0,
{
    let cap: u128 = window as u128 + delay as u128 + LIVE_GRACE_SEGMENTS as u128;
    if window > 0 && total as u128 > cap {
        total - cap as usize
    } else {
        0
    }
}

/// The newest segments that a list holds back.
pub(crate) fn held_back(is_live: bool, delay: usize) -> (r: usize)
    ensures
        r == state::delay_of(is_live, delay as nat),
{
    if !is_live {
        0
    } else if delay == 0 {
        1
    } else {
        delay
    }
}

/// The range of the published segments.
pub(crate) fn published(total: usize, window: usize, delay: usize) -> (r: (usize, usize))
    ensures
        r.1 == (if window == 0 {
            total as int
        } else if total <= delay {
            0
        } else {
            total - delay
        }),
        r.0 == (if window > 0 && r.1 > window {
            r.1 - window
        } else {
            0
        }),
        r.0 <= r.1 <= total,
{
    let end: usize = if window == 0 {
        total
    } else if total <= delay {
        0
    } else {
        total - delay
    };
    let start: usize = if window > 0 && end > window {
        end - window
    } else {
        0
    };
    (start, end)
}

/// Appends a duration in seconds with three digits behind the point.
pub fn push_seconds(out: &mut String, ns: i64)
    ensures
        final(out)@ == old(out)@ + state::seconds_text(ns),
{
    let m: u64 = if ns < 0 {
        out.push('-');
        (-(ns as i128)) as u64
    } else {
        ns as u64
    };
    let q: u64 = m / 1_000_000;
    let r: u64 = m % 1_000_000;
    let ms: u64 = if r > 500_000 || (r == 500_000 && q % 2 == 1) {
        q + 1
    } else {
        q
    };
    assert(ms == state::millis(ns));
    text::push_decimal(out, ms / 1000);
    out.push('.');
    out.push((48 + (ms / 100 % 10) as u8) as char);
    out.push((48 + (ms / 10 % 10) as u8) as char);
    out.push((48 + (ms % 10) as u8) as char);
    assert(out@ =~= old(out)@ + state::seconds_text(ns));
}

/// Appends the lines in front of the segments.
pub(crate) fn push_header(out: &mut String, target: u64, media_sequence: u64, rolling: bool)
    ensures
        final(out)@ == old(out)@ + ("#EXTM3U\n#EXT-X-VERSION:3\n#EXT-X-TARGETDURATION:"@
            + text::decimal(state::max64(target, 1) as int) + "\n#EXT-X-MEDIA-SEQUENCE:"@
            + text::decimal(media_sequence as int) + (if rolling {
            "\n"@
        } else {
            "\n#EXT-X-PLAYLIST-TYPE:EVENT\n"@
        })),
{
    text::push_str(out, "#EXTM3U\n#EXT-X-VERSION:3\n#EXT-X-TARGETDURATION:");
    text::push_decimal(out, greater(target, 1));
    text::push_str(out, "\n#EXT-X-MEDIA-SEQUENCE:");
    text::push_decimal(out, media_sequence);
    if rolling {
        text::push_str(out, "\n");
    } else {
        text::push_str(out, "\n#EXT-X-PLAYLIST-TYPE:EVENT\n");
    }
    assert(out@ =~= old(out)@ + ("#EXTM3U\n#EXT-X-VERSION:3\n#EXT-X-TARGETDURATION:"@
        + text::decimal(state::max64(target, 1) as int) + "\n#EXT-X-MEDIA-SEQUENCE:"@
        + text::decimal(media_sequence as int) + (if rolling {
        "\n"@
    } else {
        "\n#EXT-X-PLAYLIST-TYPE:EVENT\n"@
    })));
}

/// Appends the lines of one segment.
pub(crate) fn push_entry(
    out: &mut String,
    seq: u64,
    duration_ns: i64,
    discontinuity: bool,
    prefix: &str,
    stem: &str,
    suffix: &str,
)
    ensures
        final(out)@ == old(out)@ + state::entry(
            (state::Piece { seq, duration_ns, payload: (), discontinuity }),
            prefix@,
            stem@,
            suffix@,
        ),
{
    if discontinuity {
        text::push_str(out, "#EXT-X-DISCONTINUITY\n");
    }
    text::push_str(out, "#EXTINF:");
    push_seconds(out, duration_ns);
    text::push_str(out, ",\n");
    text::push_str(out, prefix);
    text::push_str(out, stem);
    text::push_decimal(out, seq);
    text::push_str(out, suffix);
    assert(out@ =~= old(out)@ + state::entry(
        (state::Piece { seq, duration_ns, payload: (), discontinuity }),
        prefix@,
        stem@,
        suffix@,
    ));
}

/// The text of a subtitle segment: with the signature in front that marks the format.
pub open spec fn webvtt(body: Seq<char>) -> Seq<char> {
    let b = text::trimmed(body);
    if b.len() == 0 {
        "WEBVTT\n\n"@
    } else if "WEBVTT"@.is_prefix_of(text::skip_char(b, '\u{feff}')) {
        b + "\n"@
    } else {
        "WEBVTT\n\n"@ + b + "\n"@
    }
}

/// The text of a subtitle segment.
pub fn format_webvtt_segment(body: &str) -> (r: String)
    ensures
        r@ == webvtt(body@),
{
    let b: Vec<char> = text::trim(text::to_chars(body).as_slice());
    if b.len() == 0 {
        return text::clone_text("WEBVTT\n\n");
    }
    let mut out: String = String::new();
    if !text::starts_with(text::skip_leading(b.as_slice(), '\u{feff}').as_slice(), "WEBVTT") {
        text::push_str(&mut out, "WEBVTT\n\n");
    }
    text::push_str(&mut out, text::from_chars(b.as_slice()).as_str());
    text::push_str(&mut out, "\n");
    assert(out@ =~= webvtt(body@));
    out
}

/// A value inside quotes, with quotes and backslashes escaped.
pub open spec fn quoted(value: Seq<char>) -> Seq<char> {
    text::replaced(text::replaced(value, "\\"@, "\\\\"@), "\""@, "\\\""@)
}

/// A value inside quotes.
pub fn hls_quote(value: &str) -> (r: String)
    ensures
        r@ == quoted(value@),
{
    proof {
        reveal_strlit("\\");
        reveal_strlit("\"");
    }
    let a: Vec<char> = text::replace(
        text::to_chars(value).as_slice(),
        "\\",
        text::to_chars("\\\\").as_slice(),
    );
    let b: Vec<char> = text::replace(a.as_slice(), "\"", text::to_chars("\\\"").as_slice());
    text::from_chars(b.as_slice())
}

} // verus!
