//! Which audio or subtitle segment belongs to a video segment, by time.
//!
//! Times of two tracks are compared in a unit that both divide: a second is a thousand times the
//! product of the two scales.

use vstd::prelude::*;

use crate::mpd::parser;
use crate::mpd::parser::{Representation, RepresentationView, SegmentRef, SegmentRefView};
use crate::text;

verus! {

/// Parts of ten of a duration that have to be covered.
pub const MIN_MEDIA_COVERAGE_NUM: u64 = 9;

/// Parts in which coverage is counted.
pub const MIN_MEDIA_COVERAGE_DEN: u64 = 10;

/// More than any time in common units.
pub const UNIT_LIMIT: i128 = 0x800_0000_0000_0000_0000_0000_0000;

/// A scale as a rate: 0 counts as 1.
pub open spec fn rate(scale: u32) -> int {
    if scale == 0 {
        1
    } else {
        scale as int
    }
}

/// Ticks of one track in common units, by the rate of the other track.
pub open spec fn units(ticks: u64, other: int) -> int {
    ticks * other * 1000
}

/// A stretch of time in common units.
#[derive(Debug, Clone, Copy, PartialEq, Eq, Structural)]
pub struct Stretch {
    pub start: i128,
    pub length: i128,
}

impl Stretch {
    pub open spec fn end(self) -> int {
        self.start + self.length
    }

    /// Whether the times are ones that ticks can have.
    pub open spec fn fits(self) -> bool {
        0 <= self.start < UNIT_LIMIT && 0 <= self.length < UNIT_LIMIT
    }

    /// How long two stretches last together; not above 0 where they do not meet.
    pub open spec fn overlap(self, other: Stretch) -> int {
        (if self.end() < other.end() {
            self.end()
        } else {
            other.end()
        }) - (if self.start > other.start {
            self.start
        } else {
            other.start
        })
    }

    /// How far apart two stretches start.
    pub open spec fn distance(self, other: Stretch) -> int {
        if self.start >= other.start {
            self.start - other.start
        } else {
            other.start - self.start
        }
    }
}

/// The stretch of a segment, by the rate of the other track.
pub open spec fn stretch_of(s: SegmentRefView, other: int) -> Stretch {
    Stretch {
        start: units(s.number, other) as i128,
        length: units(s.duration_ts, other) as i128,
    }
}

/// The stretches of the segments of a track.
pub open spec fn stretches(s: Seq<SegmentRefView>, other: int) -> Seq<Stretch> {
    s.map_values(|x: SegmentRefView| stretch_of(x, other))
}

/// Among the first `n`, the last of those that overlap `v` the longest.
pub open spec fn most_overlapping(v: Stretch, a: Seq<Stretch>, n: int) -> Option<int>
    decreases n,
{
    if n <= 0 {
        None
    } else {
        let best = most_overlapping(v, a, n - 1);
        let o = v.overlap(a[n - 1]);
        if o > 0 && (best matches Some(b) ==> o >= v.overlap(a[b])) {
            Some(n - 1)
        } else {
            best
        }
    }
}

/// Whether the middle of `v` lies in a stretch, give or take 80 milliseconds.
pub open spec fn holds_middle(v: Stretch, a: Stretch, ms: int) -> bool {
    &&& 2 * v.start + v.length >= 2 * (a.start - 80 * ms)
    &&& 2 * v.start + v.length <= 2 * (a.end() + 80 * ms)
}

/// The first from `i` on that holds the middle of `v`.
pub open spec fn around_middle(v: Stretch, a: Seq<Stretch>, ms: int, i: int) -> Option<int>
    decreases a.len() - i,
{
    if i < 0 || i >= a.len() {
        None
    } else if holds_middle(v, a[i], ms) {
        Some(i)
    } else {
        around_middle(v, a, ms, i + 1)
    }
}

/// Among the first `n`, the first of those that start closest to `v`.
pub open spec fn closest(v: Stretch, a: Seq<Stretch>, n: int) -> Option<int>
    decreases n,
{
    if n <= 0 {
        None
    } else {
        match closest(v, a, n - 1) {
            Some(b) => if v.distance(a[n - 1]) < v.distance(a[b]) {
                Some(n - 1)
            } else {
                Some(b)
            },
            None => Some(n - 1),
        }
    }
}

/// The stretch that belongs to `v`: the one that overlaps it the longest, if that is a fifth of it
/// or 400 milliseconds; else one around its middle; else the one that starts closest, if that is
/// within three fifths of the longer one or 350 milliseconds. `ms` is a millisecond.
pub open spec fn matched(v: Stretch, a: Seq<Stretch>, ms: int) -> Option<int> {
    let best = most_overlapping(v, a, a.len() as int);
    let near = closest(v, a, a.len() as int);
    if best matches Some(b) && (5 * v.overlap(a[b]) >= v.length || v.overlap(a[b]) >= 400 * ms) {
        best
    } else if around_middle(v, a, ms, 0) is Some {
        around_middle(v, a, ms, 0)
    } else if near matches Some(b) && (5 * v.distance(a[b]) <= 3 * v.length || 5 * v.distance(a[b])
        <= 3 * a[b].length || v.distance(a[b]) <= 350 * ms) {
        near
    } else {
        None
    }
}

proof fn lemma_units(ticks: u64, other: int)
    requires
        1 <= other <= u32::MAX,
    ensures
        0 <= units(ticks, other) < UNIT_LIMIT,
{
    assert(0 <= ticks * other <= 0xffff_ffff_ffff_ffff * 0xffff_ffff) by (nonlinear_arith)
        requires
            0 <= ticks <= 0xffff_ffff_ffff_ffff,
            1 <= other <= 0xffff_ffff,
    ;
}

pub(crate) fn to_units(ticks: u64, other: u64) -> (r: i128)
    requires
        1 <= other <= u32::MAX,
    ensures
        r == units(ticks, other as int),
        0 <= r < UNIT_LIMIT,
{
    proof {
        lemma_units(ticks, other as int);
        assert(0 <= ticks * other <= 0xffff_ffff_ffff_ffff * 0xffff_ffff) by (nonlinear_arith)
            requires
                0 <= ticks <= 0xffff_ffff_ffff_ffff,
                1 <= other <= 0xffff_ffff,
        ;
    }
    ticks as i128 * other as i128 * 1000
}

/// A scale as a rate.
pub fn to_rate(scale: u32) -> (r: u64)
    ensures
        r == rate(scale),
        1 <= r <= u32::MAX,
{
    if scale == 0 {
        1
    } else {
        scale as u64
    }
}

pub(crate) fn to_stretch(s: &SegmentRef, other: u64) -> (r: Stretch)
    requires
        1 <= other <= u32::MAX,
    ensures
        r == stretch_of(s@, other as int),
        r.fits(),
        r.start == units(s@.number, other as int),
        r.length == units(s@.duration_ts, other as int),
{
    Stretch { start: to_units(s.number, other), length: to_units(s.duration_ts, other) }
}

fn to_stretches(v: &[SegmentRef], other: u64) -> (r: Vec<Stretch>)
    requires
        1 <= other <= u32::MAX,
    ensures
        r@ == stretches(parser::segment_views(v@), other as int),
        forall|i: int| 0 <= i < r@.len() ==> (#[trigger] r@[i]).fits(),
{
    let ghost want = stretches(parser::segment_views(v@), other as int);
    let mut out: Vec<Stretch> = Vec::new();
    for i in 0..v.len()
        invariant
            1 <= other <= u32::MAX,
            want == stretches(parser::segment_views(v@), other as int),
            out@ == want.take(i as int),
            forall|j: int| 0 <= j < out@.len() ==> (#[trigger] out@[j]).fits(),
    {
        let s: Stretch = to_stretch(&v[i], other);
        out.push(s);
        assert(out@ =~= want.take(i as int + 1));
    }
    assert(out@ =~= want);
    out
}

fn overlap(v: Stretch, a: Stretch) -> (r: i128)
    requires
        v.fits(),
        a.fits(),
    ensures
        r == v.overlap(a),
        -UNIT_LIMIT < r < 2 * UNIT_LIMIT,
{
    let v_end: i128 = v.start + v.length;
    let a_end: i128 = a.start + a.length;
    let end: i128 = if v_end < a_end {
        v_end
    } else {
        a_end
    };
    let start: i128 = if v.start > a.start {
        v.start
    } else {
        a.start
    };
    end - start
}

fn distance(v: Stretch, a: Stretch) -> (r: i128)
    requires
        v.fits(),
        a.fits(),
    ensures
        r == v.distance(a),
        0 <= r < UNIT_LIMIT,
{
    if v.start >= a.start {
        v.start - a.start
    } else {
        a.start - v.start
    }
}

fn find_overlap(v: Stretch, a: &[Stretch]) -> (r: Option<(usize, i128)>)
    requires
        v.fits(),
        forall|i: int| 0 <= i < a@.len() ==> (#[trigger] a@[i]).fits(),
    ensures
        match r {
            Some((i, o)) => i < a@.len() && most_overlapping(v, a@, a@.len() as int) == Some(
                i as int,
            ) && o == v.overlap(a@[i as int]) && 0 < o < 2 * UNIT_LIMIT,
            None => most_overlapping(v, a@, a@.len() as int) is None,
        },
{
    let mut best: Option<(usize, i128)> = None;
    for i in 0..a.len()
        invariant
            v.fits(),
            forall|j: int| 0 <= j < a@.len() ==> (#[trigger] a@[j]).fits(),
            match best {
                Some((b, o)) => b < i && most_overlapping(v, a@, i as int) == Some(b as int) && o
                    == v.overlap(a@[b as int]) && 0 < o < 2 * UNIT_LIMIT,
                None => most_overlapping(v, a@, i as int) is None,
            },
    {
        let o: i128 = overlap(v, a[i]);
        if o > 0 {
            let better: bool = match best {
                Some((_, p)) => o >= p,
                None => true,
            };
            if better {
                best = Some((i, o));
            }
        }
    }
    best
}

fn find_middle(v: Stretch, a: &[Stretch], ms: i128) -> (r: Option<usize>)
    requires
        v.fits(),
        0 <= ms < UNIT_LIMIT,
        forall|i: int| 0 <= i < a@.len() ==> (#[trigger] a@[i]).fits(),
    ensures
        match r {
            Some(i) => i < a@.len() && around_middle(v, a@, ms as int, 0) == Some(i as int),
            None => around_middle(v, a@, ms as int, 0) is None,
        },
{
    let n: usize = a.len();
    let mut i: usize = 0;
    let middle: i128 = 2 * v.start + v.length;
    while i < n
        invariant
            n == a@.len(),
            v.fits(),
            0 <= ms < UNIT_LIMIT,
            middle == 2 * v.start + v.length,
            forall|j: int| 0 <= j < a@.len() ==> (#[trigger] a@[j]).fits(),
            around_middle(v, a@, ms as int, 0) == around_middle(v, a@, ms as int, i as int),
        decreases n - i,
    {
        assert(a@[i as int].fits());
        let s: Stretch = a[i];
        if middle >= 2 * (s.start - 80 * ms) && middle <= 2 * (s.start + s.length + 80 * ms) {
            return Some(i);
        }
        i = i + 1;
    }
    None
}

fn find_closest(v: Stretch, a: &[Stretch]) -> (r: Option<(usize, i128)>)
    requires
        v.fits(),
        forall|i: int| 0 <= i < a@.len() ==> (#[trigger] a@[i]).fits(),
    ensures
        match r {
            Some((i, d)) => i < a@.len() && closest(v, a@, a@.len() as int) == Some(i as int) && d
                == v.distance(a@[i as int]) && 0 <= d < UNIT_LIMIT,
            None => closest(v, a@, a@.len() as int) is None,
        },
{
    let mut best: Option<(usize, i128)> = None;
    for i in 0..a.len()
        invariant
            v.fits(),
            forall|j: int| 0 <= j < a@.len() ==> (#[trigger] a@[j]).fits(),
            match best {
                Some((b, d)) => b < i && closest(v, a@, i as int) == Some(b as int) && d
                    == v.distance(a@[b as int]) && 0 <= d < UNIT_LIMIT,
                None => i == 0 && closest(v, a@, i as int) is None,
            },
    {
        let d: i128 = distance(v, a[i]);
        let better: bool = match best {
            Some((_, p)) => d < p,
            None => true,
        };
        if better {
            best = Some((i, d));
        }
    }
    best
}

/// The place of the stretch that belongs to `v`. `ms` is a millisecond.
pub fn match_stretch(v: Stretch, a: &[Stretch], ms: i128) -> (r: Option<usize>)
    requires
        v.fits(),
        0 <= ms < UNIT_LIMIT,
        forall|i: int| 0 <= i < a@.len() ==> (#[trigger] a@[i]).fits(),
    ensures
        match r {
            Some(i) => i < a@.len() && matched(v, a@, ms as int) == Some(i as int),
            None => matched(v, a@, ms as int) is None,
        },
{
    if let Some((i, o)) = find_overlap(v, a) {
        if 5 * o >= v.length || o >= 400 * ms {
            return Some(i);
        }
    }
    if let Some(i) = find_middle(v, a, ms) {
        return Some(i);
    }
    if let Some((i, d)) = find_closest(v, a) {
        assert(a@[i as int].fits());
        if 5 * d <= 3 * v.length || 5 * d <= 3 * a[i].length || d <= 350 * ms {
            return Some(i);
        }
    }
    None
}

/// The place of the segment of a track that belongs to a segment of another track.
pub open spec fn match_of(v: SegmentRefView, scale: u32, rep: RepresentationView) -> Option<int> {
    matched(
        stretch_of(v, rate(rep.timescale)),
        stretches(rep.segments, rate(scale)),
        rate(scale) * rate(rep.timescale),
    )
}

/// The segment of a track that belongs to a video segment, by time.
pub fn match_audio_segment_by_time<'a>(
    video_seg: &SegmentRef,
    video_timescale: u32,
    audio_rep: &'a Representation,
) -> (r: Option<&'a SegmentRef>)
    ensures
        match r {
            Some(s) => match_of(video_seg@, video_timescale, audio_rep@) matches Some(i) && 0 <= i
                < audio_rep@.segments.len() && s@ == audio_rep@.segments[i],
            None => match_of(video_seg@, video_timescale, audio_rep@) is None,
        },
{
    let v_rate: u64 = to_rate(video_timescale);
    let a_rate: u64 = to_rate(audio_rep.timescale);
    let v: Stretch = to_stretch(video_seg, a_rate);
    let a: Vec<Stretch> = to_stretches(audio_rep.segments.as_slice(), v_rate);
    assert(0 <= v_rate * a_rate <= 0xffff_ffff * 0xffff_ffff) by (nonlinear_arith)
        requires
            1 <= v_rate <= 0xffff_ffff,
            1 <= a_rate <= 0xffff_ffff,
    ;
    let ms: i128 = v_rate as i128 * a_rate as i128;
    match match_stretch(v, a.as_slice(), ms) {
        Some(i) => {
            assert(a@.len() == audio_rep@.segments.len());
            assert(audio_rep@.segments[i as int] == audio_rep.segments@[i as int]@);
            Some(&audio_rep.segments[i])
        },
        None => None,
    }
}

/// The segment of a timed track that belongs to a video segment.
pub fn match_timed_segment_for_video<'a>(
    video_seg: &SegmentRef,
    video_timescale: u32,
    rep: &'a Representation,
) -> (r: Option<&'a SegmentRef>)
    ensures
        match r {
            Some(s) => match_of(video_seg@, video_timescale, rep@) matches Some(i) && 0 <= i
                < rep@.segments.len() && s@ == rep@.segments[i],
            None => match_of(video_seg@, video_timescale, rep@) is None,
        },
{
    match_audio_segment_by_time(video_seg, video_timescale, rep)
}

proof fn lemma_most_overlapping(v: Stretch, a: Seq<Stretch>, n: int)
    requires
        0 <= n <= a.len(),
    ensures
        match most_overlapping(v, a, n) {
            Some(b) => 0 <= b < n && v.overlap(a[b]) > 0 && forall|i: int|
                0 <= i < n ==> v.overlap(#[trigger] a[i]) <= v.overlap(a[b]),
            None => forall|i: int| 0 <= i < n ==> v.overlap(#[trigger] a[i]) <= 0,
        },
    decreases n,
{
    if n > 0 {
        lemma_most_overlapping(v, a, n - 1);
    }
}

/// A track with a segment that covers a video segment gives one that overlaps it: never one beside
/// it.
pub proof fn law_covering_segment_is_matched(v: Stretch, a: Seq<Stretch>, ms: int, i: int)
    requires
        v.fits(),
        v.length > 0,
        0 <= i < a.len(),
        a[i].start <= v.start,
        v.end() <= a[i].end(),
    ensures
        matched(v, a, ms) matches Some(b) && 0 <= b < a.len() && v.overlap(a[b]) == v.length,
{
    lemma_most_overlapping(v, a, a.len() as int);
    assert(v.overlap(a[i]) == v.length);
    let b = most_overlapping(v, a, a.len() as int)->0;
    assert(v.overlap(a[b]) <= v.length);
}

/// Whether the segments of a track go by their time.
pub open spec fn by_time(rep: RepresentationView) -> bool {
    text::contains(rep.media_template, "$Time$"@) && !text::contains(
        rep.media_template,
        "$Number$"@,
    )
}

/// Whether the segments of a track go by their time.
pub fn is_time_template(rep: &Representation) -> (r: bool)
    ensures
        r == by_time(rep@),
{
    let t: Vec<char> = text::to_chars(rep.media_template.as_str());
    text::has(t.as_slice(), "$Time$") && !text::has(t.as_slice(), "$Number$")
}

/// Segments are compared by their times, whatever the ticks of their tracks: one starts before
/// another exactly where its time in seconds is the smaller one.
pub proof fn law_stretches_compare_times(
    v: SegmentRefView,
    scale: u32,
    a: SegmentRefView,
    other: u32,
)
    requires
        scale > 0,
        other > 0,
    ensures
        ({
            let x = stretch_of(v, rate(other));
            let y = stretch_of(a, rate(scale));
            &&& x.start <= y.start <==> v.number * other <= a.number * scale
            &&& x.length <= y.length <==> v.duration_ts * other <= a.duration_ts * scale
            &&& x.end() <= y.end() <==> (v.number + v.duration_ts) * other <= (a.number
                + a.duration_ts) * scale
        }),
{
    lemma_stretch_units(v.number, other as int);
    lemma_stretch_units(v.duration_ts, other as int);
    lemma_stretch_units(a.number, scale as int);
    lemma_stretch_units(a.duration_ts, scale as int);
    let (n, d, o) = (v.number as int, v.duration_ts as int, other as int);
    assert((n + d) * o == n * o + d * o) by (nonlinear_arith);
    let (p, q, s) = (a.number as int, a.duration_ts as int, scale as int);
    assert((p + q) * s == p * s + q * s) by (nonlinear_arith);
}

proof fn lemma_stretch_units(ticks: u64, other: int)
    requires
        0 < other <= u32::MAX,
    ensures
        units(ticks, other) == (ticks * other) * 1000,
        0 <= units(ticks, other) <= 0x1_0000_0000_0000_0000 * 0x1_0000_0000 * 1000,
        units(ticks, other) as i128 == units(ticks, other),
{
    assert(0 <= ticks * other <= 0x1_0000_0000_0000_0000 * 0x1_0000_0000) by (nonlinear_arith)
        requires
            0 <= ticks <= 0x1_0000_0000_0000_0000,
            0 < other <= 0x1_0000_0000,
    ;
}

/// Where a segment overlaps the video for a fifth of it, one that overlaps at least as long is
/// taken.
pub proof fn law_longest_overlap_is_matched(v: Stretch, a: Seq<Stretch>, ms: int, i: int)
    requires
        0 <= i < a.len(),
        v.overlap(a[i]) > 0,
        5 * v.overlap(a[i]) >= v.length,
    ensures
        matched(v, a, ms) matches Some(b) && 0 <= b < a.len() && v.overlap(a[b]) >= v.overlap(a[i]),
{
    lemma_most_overlapping(v, a, a.len() as int);
}

/// Where every segment starts behind the end of the video, by more than 350 milliseconds and by
/// more than its own length, none is taken.
pub proof fn law_distant_segments_are_not_matched(v: Stretch, a: Seq<Stretch>, ms: int)
    requires
        v.length >= 0,
        ms >= 0,
        forall|i: int|
            0 <= i < a.len() ==> (#[trigger] a[i]).length >= 0 && a[i].start - v.start > v.length
                + 350 * ms && a[i].start - v.start > a[i].length,
    ensures
        matched(v, a, ms) is None,
{
    lemma_most_overlapping(v, a, a.len() as int);
    if let Some(b) = most_overlapping(v, a, a.len() as int) {
        assert(a[b].start - v.start > v.length + 350 * ms);
    }
    lemma_no_middle(v, a, ms, 0);
    lemma_closest_is_one(v, a, a.len() as int);
    if let Some(b) = closest(v, a, a.len() as int) {
        assert(a[b].length >= 0 && a[b].start - v.start > v.length + 350 * ms && a[b].start
            - v.start > a[b].length);
    }
}

proof fn lemma_no_middle(v: Stretch, a: Seq<Stretch>, ms: int, i: int)
    requires
        0 <= i,
        v.length >= 0,
        ms >= 0,
        forall|j: int| 0 <= j < a.len() ==> (#[trigger] a[j]).start - v.start > v.length + 350 * ms,
    ensures
        around_middle(v, a, ms, i) is None,
    decreases a.len() - i,
{
    if i < a.len() {
        assert(a[i].start - v.start > v.length + 350 * ms);
        lemma_no_middle(v, a, ms, i + 1);
    }
}

proof fn lemma_closest_is_one(v: Stretch, a: Seq<Stretch>, n: int)
    requires
        0 <= n <= a.len(),
    ensures
        closest(v, a, n) matches Some(b) ==> 0 <= b < n,
        forall|i: int|
            0 <= i < n ==> closest(v, a, n) is Some && v.distance(a[closest(v, a, n)->0])
                <= v.distance(#[trigger] a[i]),
    decreases n,
{
    if n > 0 {
        lemma_closest_is_one(v, a, n - 1);
    }
}

} // verus!
