//! Times of cues, in nanoseconds.

use vstd::prelude::*;

use crate::text;
use crate::time;

verus! {

/// More than any time that a cue can state, before and behind zero.
pub const TIME_LIMIT: i128 = 10_000_000_000_000_000_000_000_000_000_000_000;

/// A time of WebVTT: seconds, with minutes and hours in front, divided by colons.
pub open spec fn vtt_time(s: Seq<char>) -> Option<int> {
    let p = text::pieces(s, ':');
    let seconds = time::decimal_ns(text::replaced(p.last(), ","@, "."@));
    if seconds is None {
        None
    } else if p.len() == 1 {
        seconds
    } else if p.len() == 2 {
        match time::decimal_ns(p[0]) {
            Some(m) => Some(m * 60 + seconds->0),
            None => None,
        }
    } else if p.len() == 3 {
        match (time::decimal_ns(p[0]), time::decimal_ns(p[1])) {
            (Some(h), Some(m)) => Some(h * 3600 + m * 60 + seconds->0),
            _ => None,
        }
    } else {
        None
    }
}

/// A decimal number times `mul` over `div` seconds.
pub open spec fn scaled(s: Seq<char>, mul: int, div: int) -> Option<int> {
    match time::decimal_ns(text::trimmed(s)) {
        Some(v) => Some(v * mul / div),
        None => None,
    }
}

/// A time expression of TTML: an offset with its unit, a clock time with frames of 25 in a second,
/// or a time of WebVTT.
pub open spec fn time_expression(s: Seq<char>) -> Option<int> {
    let v = text::trimmed(s);
    let p = text::pieces(v, ':');
    if let Some(n) = text::before_suffix(v, "ms"@) {
        scaled(n, 1, 1000)
    } else if let Some(n) = text::before_suffix(v, "s"@) {
        scaled(n, 1, 1)
    } else if let Some(n) = text::before_suffix(v, "m"@) {
        scaled(n, 60, 1)
    } else if let Some(n) = text::before_suffix(v, "h"@) {
        scaled(n, 3600, 1)
    } else if p.len() == 4 {
        match (
            time::decimal_ns(p[0]),
            time::decimal_ns(p[1]),
            time::decimal_ns(p[2]),
            time::decimal_ns(p[3]),
        ) {
            (Some(h), Some(m), Some(sec), Some(f)) => Some(h * 3600 + m * 60 + sec + f / 25),
            _ => None,
        }
    } else {
        vtt_time(v)
    }
}

/// A time in whole milliseconds: the nearest, or the later of two. One below zero counts as 0.
pub open spec fn rounded_millis(ns: int) -> int {
    let ms = if ns < 0 {
        0
    } else if ns % 1_000_000 >= 500_000 {
        ns / 1_000_000 + 1
    } else {
        ns / 1_000_000
    };
    if ms > u64::MAX {
        u64::MAX as int
    } else {
        ms
    }
}

/// A time as hours, minutes, seconds and milliseconds.
#[verifier::opaque]
pub open spec fn clock(ns: int) -> Seq<char> {
    let ms = rounded_millis(ns);
    text::decimal2(ms / 3_600_000) + ":"@ + text::decimal2(ms % 3_600_000 / 60_000) + ":"@
        + text::decimal2(ms % 60_000 / 1000) + "."@ + text::decimal3(ms % 1000)
}

/// A time of WebVTT.
pub fn parse_vtt_time(value: &[char]) -> (r: Option<i128>)
    ensures
        match r {
            Some(v) => vtt_time(value@) == Some(v as int) && -TIME_LIMIT < v < TIME_LIMIT,
            None => vtt_time(value@) is None,
        },
{
    let p: Vec<Vec<char>> = text::split(value, ':');
    let n: usize = p.len();
    let ghost ps = text::pieces(value@, ':');
    assert(ps.last() == p@[n - 1]@);
    proof {
        reveal_strlit(",");
    }
    let last: Vec<char> = text::replace(
        p[n - 1].as_slice(),
        ",",
        text::to_chars(".").as_slice(),
    );
    let seconds: i128 = match time::parse_decimal_ns(last.as_slice()) {
        Some(v) => v,
        None => return None,
    };
    if n == 1 {
        return Some(seconds);
    }
    assert(ps[0] == p@[0]@);
    if n == 2 {
        return match time::parse_decimal_ns(p[0].as_slice()) {
            Some(m) => Some(m * 60 + seconds),
            None => None,
        };
    }
    if n == 3 {
        assert(ps[1] == p@[1]@);
        let h: i128 = match time::parse_decimal_ns(p[0].as_slice()) {
            Some(h) => h,
            None => return None,
        };
        return match time::parse_decimal_ns(p[1].as_slice()) {
            Some(m) => Some(h * 3600 + m * 60 + seconds),
            None => None,
        };
    }
    None
}

/// The quotient that is not greater than the exact one.
fn floor_div(v: i128, div: i128) -> (r: i128)
    requires
        1 <= div <= 1000,
        -3600 * time::GREATEST <= v <= 3600 * time::GREATEST,
    ensures
        r == v as int / div as int,
        -3600 * time::GREATEST <= r <= 3600 * time::GREATEST,
{
    proof {
        let q = v as int / div as int;
        assert(v <= q * div + div - 1 && q * div <= v) by (nonlinear_arith)
            requires
                q == v as int / div as int,
                div >= 1,
        ;
        assert(-3600 * time::GREATEST <= q && q <= 3600 * time::GREATEST) by (nonlinear_arith)
            requires
                q * div <= v,
                v <= q * div + div - 1,
                div >= 1,
                -3600 * time::GREATEST <= v <= 3600 * time::GREATEST,
        ;
    }
    if v >= 0 {
        (v as u128 / div as u128) as i128
    } else {
        let m: u128 = (-v) as u128;
        let up: u128 = (m + (div as u128 - 1)) / div as u128;
        proof {
            let d = div as int;
            let u = (m + (d - 1)) / d;
            assert(v as int / d == -u) by (nonlinear_arith)
                requires
                    m == -v,
                    d >= 1,
                    u == (m + (d - 1)) / d,
            ;
        }
        -(up as i128)
    }
}

fn parse_scaled(s: &[char], mul: i128, div: i128) -> (r: Option<i128>)
    requires
        1 <= mul <= 3600,
        1 <= div <= 1000,
    ensures
        match r {
            Some(v) => scaled(s@, mul as int, div as int) == Some(v as int) && -TIME_LIMIT < v
                < TIME_LIMIT,
            None => scaled(s@, mul as int, div as int) is None,
        },
{
    match time::parse_decimal_ns(text::trim(s).as_slice()) {
        Some(v) => {
            assert(-3600 * time::GREATEST <= v * mul <= 3600 * time::GREATEST) by (nonlinear_arith)
                requires
                    -time::GREATEST <= v <= time::GREATEST,
                    1 <= mul <= 3600,
            ;
            Some(floor_div(v * mul, div))
        },
        None => None,
    }
}

/// A time expression of TTML.
pub fn parse_time_expression(value: &str) -> (r: Option<i128>)
    ensures
        match r {
            Some(v) => time_expression(value@) == Some(v as int) && -TIME_LIMIT < v < TIME_LIMIT,
            None => time_expression(value@) is None,
        },
{
    let v: Vec<char> = text::trim(text::to_chars(value).as_slice());
    if let Some(n) = text::strip_suffix(v.as_slice(), "ms") {
        return parse_scaled(n.as_slice(), 1, 1000);
    }
    if let Some(n) = text::strip_suffix(v.as_slice(), "s") {
        return parse_scaled(n.as_slice(), 1, 1);
    }
    if let Some(n) = text::strip_suffix(v.as_slice(), "m") {
        return parse_scaled(n.as_slice(), 60, 1);
    }
    if let Some(n) = text::strip_suffix(v.as_slice(), "h") {
        return parse_scaled(n.as_slice(), 3600, 1);
    }
    let p: Vec<Vec<char>> = text::split(v.as_slice(), ':');
    let ghost ps = text::pieces(v@, ':');
    assert(ps == text::char_views(p@));
    if p.len() == 4 {
        assert(ps[0] == p@[0]@ && ps[1] == p@[1]@ && ps[2] == p@[2]@ && ps[3] == p@[3]@);
        return match (
            time::parse_decimal_ns(p[0].as_slice()),
            time::parse_decimal_ns(p[1].as_slice()),
            time::parse_decimal_ns(p[2].as_slice()),
            time::parse_decimal_ns(p[3].as_slice()),
        ) {
            (Some(h), Some(m), Some(s), Some(f)) => Some(
                h * 3600 + m * 60 + s + floor_div(f, 25),
            ),
            _ => None,
        };
    }
    parse_vtt_time(v.as_slice())
}

/// Appends a time as hours, minutes, seconds and milliseconds.
pub fn push_clock(out: &mut String, ns: i128)
    ensures
        final(out)@ == old(out)@ + clock(ns as int),
{
    let at: u128 = if ns < 0 {
        0
    } else {
        ns as u128
    };
    let q: u128 = at / 1_000_000;
    let near: u128 = if at % 1_000_000 >= 500_000 {
        q + 1
    } else {
        q
    };
    let ms: u64 = if near > u64::MAX as u128 {
        u64::MAX
    } else {
        near as u64
    };
    assert(ms == rounded_millis(ns as int));
    proof {
        reveal(clock);
    }
    text::push_decimal2(out, ms / 3_600_000);
    text::push_str(out, ":");
    text::push_decimal2(out, ms % 3_600_000 / 60_000);
    text::push_str(out, ":");
    text::push_decimal2(out, ms % 60_000 / 1000);
    text::push_str(out, ".");
    text::push_decimal3(out, ms % 1000);
    assert(out@ =~= old(out)@ + clock(ns as int));
}

/// A time as hours, minutes, seconds and milliseconds.
pub fn format_vtt_time(ns: i128) -> (r: String)
    ensures
        r@ == clock(ns as int),
{
    let mut out: String = String::new();
    push_clock(&mut out, ns);
    assert(out@ =~= clock(ns as int));
    out
}

} // verus!
