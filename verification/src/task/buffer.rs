//! What makes the next segment: the frames so far, where they lie in time, and what was muxed.

use vstd::prelude::*;

use crate::hevc::annexb;
use crate::hevc::annexb::{AccessUnit, AccessUnitView};
use crate::mp4::aac::AacConfig;
use crate::mp4::sample::{ParsedSegment, SampleView, SegmentView};
use crate::clock;
use crate::segment::{HlsOutput, SubtitleOutput};
use crate::subtitle::fragment;
use crate::subtitle::fragment::AccumulatorView;
use crate::subtitle::SubtitleAccumulator;
use crate::time;
use crate::ts::muxer;
use crate::ts::muxer::{AudioUnit, AudioUnitView, MuxerView, TsMuxer};
use crate::ts::VideoCodec;
use crate::wire;

verus! {

/// The origin of a timeline that has none yet.
pub const UNSET_ORIGIN: u64 = 0xffff_ffff_ffff_ffff;

/// The timeline of a track in source ticks: segments that state their decode time are placed
/// relative to the first one, others behind what came so far.
#[derive(Debug, Clone, Copy, PartialEq, Eq, Structural)]
pub struct Line {
    pub origin: u64,
    /// The duration of all segments so far.
    pub total: u64,
}

impl Line {
    /// Where a segment with the decode time `base` starts.
    pub open spec fn start(self, base: Option<u64>) -> u64 {
        match base {
            None => self.total,
            Some(t) => if self.origin == UNSET_ORIGIN || t < self.origin {
                0
            } else {
                (t - self.origin) as u64
            },
        }
    }

    /// The timeline once a segment with the decode time `base` was placed.
    pub open spec fn anchored(self, base: Option<u64>) -> Self {
        match base {
            Some(t) if self.origin == UNSET_ORIGIN => Line { origin: t, ..self },
            _ => self,
        }
    }

    /// The timeline with `ticks` more.
    pub open spec fn extended(self, ticks: u64) -> Self {
        Line { total: time::sum64(self.total, ticks), ..self }
    }

    /// Places a segment.
    pub fn place(&mut self, base: Option<u64>) -> (r: u64)
        ensures
            r == old(self).start(base),
            *final(self) == old(self).anchored(base),
    {
        match base {
            None => self.total,
            Some(t) => {
                if self.origin == UNSET_ORIGIN {
                    self.origin = t;
                    0
                } else if t < self.origin {
                    0
                } else {
                    t - self.origin
                }
            },
        }
    }

    /// Adds the duration of a segment.
    pub fn extend(&mut self, ticks: u64)
        ensures
            *final(self) == old(self).extended(ticks),
    {
        self.total = time::add64(self.total, ticks);
    }
}

/// Whether a decode time is before the last one.
pub open spec fn rewound(last: Option<u64>, current: Option<u64>) -> bool {
    last is Some && current is Some && current->0 < last->0
}

/// Whether a decode time goes back behind the last one.
pub fn timeline_rewound(last: Option<u64>, current: Option<u64>) -> (r: bool)
    ensures
        r == rewound(last, current),
{
    match (last, current) {
        (Some(prev), Some(now)) => now < prev,
        _ => false,
    }
}

/// Where the sample `i` starts, of samples that start at `start`.
pub open spec fn position(start: u64, samples: Seq<SampleView>, i: int) -> u64
    decreases i,
{
    if i <= 0 {
        start
    } else {
        time::sum64(position(start, samples, i - 1), samples[i - 1].duration as u64)
    }
}

/// The duration of samples.
pub open spec fn ticks_of(samples: Seq<SampleView>) -> u64 {
    position(0, samples, samples.len() as int)
}

/// Whether each sample starts inside the media data.
pub open spec fn whole(s: SegmentView) -> bool {
    forall|i: int|
        0 <= i < s.samples.len() ==> 0 <= (#[trigger] s.samples[i]).from <= s.samples[i].to
            && s.samples[i].from <= s.mdat.len()
}

/// The bytes of the sample `i`, as far as there are any.
pub open spec fn sample_bytes(s: SegmentView, i: int) -> Seq<u8> {
    s.mdat.subrange(
        s.samples[i].from,
        if s.samples[i].to <= s.mdat.len() {
            s.samples[i].to
        } else {
            s.mdat.len() as int
        },
    )
}

/// The access units of a segment that starts at `start`.
pub open spec fn video_units(s: SegmentView, start: u64, codec: VideoCodec) -> Seq<AccessUnitView> {
    Seq::new(
        s.samples.len(),
        |i: int|
            annexb::unit_of(
                sample_bytes(s, i),
                position(start, s.samples, i),
                s.samples[i].cts_offset as i64,
                codec,
            ),
    )
}

/// The data of an audio frame: AAC gets an ADTS header.
pub open spec fn frame_data(frame: Seq<u8>, aac: Option<AacConfig>) -> Seq<u8> {
    match aac {
        Some(c) => c.adts(frame),
        None => frame,
    }
}

/// The audio frames of a segment that starts at `start`.
pub open spec fn audio_units(s: SegmentView, start: u64, aac: Option<AacConfig>) -> Seq<
    AudioUnitView,
> {
    Seq::new(
        s.samples.len(),
        |i: int|
            AudioUnitView {
                data: frame_data(sample_bytes(s, i), aac),
                pts: position(start, s.samples, i),
            },
    )
}

/// The durations of samples.
pub open spec fn durations_of(samples: Seq<SampleView>) -> Seq<u64> {
    samples.map_values(|s: SampleView| s.duration as u64)
}

/// Tells whether each sample starts inside the media data.
pub fn is_whole(p: &ParsedSegment) -> (r: bool)
    ensures
        r == whole(p@),
{
    for i in 0..p.samples.len()
        invariant
            forall|j: int|
                0 <= j < i ==> 0 <= (#[trigger] p@.samples[j]).from <= p@.samples[j].to
                    && p@.samples[j].from <= p@.mdat.len(),
    {
        let range: (usize, usize) = p.samples[i].data_range;
        assert(p@.samples[i as int] == p.samples@[i as int]@);
        if range.0 > range.1 || range.0 > p.mdat.len() {
            return false;
        }
    }
    true
}

/// The duration of the samples of a segment.
pub fn total_ticks(p: &ParsedSegment) -> (r: u64)
    ensures
        r == ticks_of(p@.samples),
{
    let mut t: u64 = 0;
    for i in 0..p.samples.len()
        invariant
            t == position(0, p@.samples, i as int),
    {
        assert(p@.samples[i as int] == p.samples@[i as int]@);
        t = time::add64(t, p.samples[i].duration as u64);
    }
    t
}

fn bytes_of_sample<'a>(p: &'a ParsedSegment, i: usize) -> (r: &'a [u8])
    requires
        whole(p@),
        i < p.samples@.len(),
    ensures
        r@ == sample_bytes(p@, i as int),
{
    let range: (usize, usize) = p.samples[i].data_range;
    assert(p@.samples[i as int] == p.samples@[i as int]@);
    let n: usize = p.mdat.len();
    let to: usize = if range.1 <= n {
        range.1
    } else {
        n
    };
    vstd::slice::slice_subrange(p.mdat.as_slice(), range.0, to)
}

/// Makes the access units of a segment that starts at `start`.
pub fn make_video_units(p: &ParsedSegment, start: u64, codec: VideoCodec) -> (r: Vec<AccessUnit>)
    requires
        whole(p@),
    ensures
        muxer::video_views(r@) == video_units(p@, start, codec),
{
    let mut out: Vec<AccessUnit> = Vec::new();
    let mut at: u64 = start;
    for i in 0..p.samples.len()
        invariant
            whole(p@),
            at == position(start, p@.samples, i as int),
            out@.len() == i,
            forall|j: int|
                0 <= j < i ==> (#[trigger] out@[j])@ == video_units(p@, start, codec)[j],
    {
        assert(p@.samples[i as int] == p.samples@[i as int]@);
        let bytes: &[u8] = bytes_of_sample(p, i);
        let unit = AccessUnit::from_sample(bytes, at, p.samples[i].cts_offset as i64, codec);
        assert(unit@ == video_units(p@, start, codec)[i as int]);
        out.push(unit);
        at = time::add64(at, p.samples[i].duration as u64);
    }
    assert(muxer::video_views(out@) =~= video_units(p@, start, codec));
    out
}

/// Makes the audio frames of a segment that starts at `start`.
pub fn make_audio_units(p: &ParsedSegment, start: u64, aac: &Option<AacConfig>) -> (r: Vec<
    AudioUnit,
>)
    requires
        whole(p@),
    ensures
        muxer::audio_views(r@) == audio_units(p@, start, *aac),
        r@.len() == p.samples@.len(),
{
    let mut out: Vec<AudioUnit> = Vec::new();
    let mut at: u64 = start;
    for i in 0..p.samples.len()
        invariant
            whole(p@),
            at == position(start, p@.samples, i as int),
            out@.len() == i,
            forall|j: int|
                0 <= j < i ==> (#[trigger] out@[j])@ == audio_units(p@, start, *aac)[j],
    {
        assert(p@.samples[i as int] == p.samples@[i as int]@);
        let frame: &[u8] = bytes_of_sample(p, i);
        let data: Vec<u8> = match aac {
            Some(c) => c.wrap_adts(frame),
            None => wire::copy(frame),
        };
        let unit = AudioUnit { data, pts: at };
        assert(unit@ =~= audio_units(p@, start, *aac)[i as int]);
        out.push(unit);
        at = time::add64(at, p.samples[i].duration as u64);
    }
    assert(muxer::audio_views(out@) =~= audio_units(p@, start, *aac));
    out
}

/// The durations of the samples of a segment.
pub fn sample_durations(p: &ParsedSegment) -> (r: Vec<u64>)
    ensures
        r@ == durations_of(p@.samples),
{
    let mut out: Vec<u64> = Vec::new();
    for i in 0..p.samples.len()
        invariant
            out@ =~= durations_of(p@.samples).take(i as int),
    {
        assert(p@.samples[i as int] == p.samples@[i as int]@);
        out.push(p.samples[i].duration as u64);
    }
    assert(durations_of(p@.samples).take(p.samples@.len() as int) =~= durations_of(p@.samples));
    out
}

/// A timestamp moved by the way from `first` to `expected`, in two's complement of 64 bits, and
/// not below zero.
pub open spec fn moved(ts: u64, first: u64, expected: u64) -> u64 {
    if first == expected {
        ts
    } else {
        let v = clock::signed64(ts + expected - first);
        if v < 0 {
            0
        } else {
            v as u64
        }
    }
}

/// Moves a timestamp by the way from `first` to `expected`.
pub fn shift(ts: u64, first: u64, expected: u64) -> (r: u64)
    ensures
        r == moved(ts, first, expected),
{
    if first == expected {
        return ts;
    }
    let whole: i128 = ts as i128 + expected as i128 - first as i128;
    let v: i128 = if whole < 0 {
        whole + 0x1_0000_0000_0000_0000
    } else if whole >= 0x1_0000_0000_0000_0000 {
        whole - 0x1_0000_0000_0000_0000
    } else {
        whole
    };
    assert(v == (ts + expected - first) % 0x1_0000_0000_0000_0000);
    if v < 0x8000_0000_0000_0000 {
        v as u64
    } else {
        0
    }
}

/// Access units behind those of `acc`, which last `ticks`: without a gap and without an overlap.
pub open spec fn video_behind(
    acc: Seq<AccessUnitView>,
    ticks: u64,
    units: Seq<AccessUnitView>,
) -> Seq<AccessUnitView> {
    if acc.len() == 0 || units.len() == 0 {
        units
    } else {
        units.map_values(
            |u: AccessUnitView|
                AccessUnitView {
                    dts: moved(u.dts, units[0].dts, time::sum64(acc[0].dts, ticks)),
                    ..u
                },
        )
    }
}

/// Audio frames behind those of `acc`, which last `ticks`: without a gap and without an overlap.
pub open spec fn audio_behind(
    acc: Seq<AudioUnitView>,
    ticks: u64,
    units: Seq<AudioUnitView>,
) -> Seq<AudioUnitView> {
    if acc.len() == 0 || units.len() == 0 {
        units
    } else {
        units.map_values(
            |u: AudioUnitView|
                AudioUnitView {
                    pts: moved(u.pts, units[0].pts, time::sum64(acc[0].pts, ticks)),
                    ..u
                },
        )
    }
}

/// Puts access units behind those of `acc`, which last `ticks`.
pub fn align_video(acc: &[AccessUnit], ticks: u64, units: &mut Vec<AccessUnit>)
    ensures
        muxer::video_views(final(units)@) == video_behind(
            muxer::video_views(acc@),
            ticks,
            muxer::video_views(old(units)@),
        ),
{
    let n: usize = units.len();
    if acc.len() == 0 || n == 0 {
        return;
    }
    let ghost av = muxer::video_views(acc@);
    let ghost was = muxer::video_views(units@);
    let ghost want = video_behind(av, ticks, was);
    assert(av[0] == acc@[0]@);
    assert(was[0] == units@[0]@);
    let expected: u64 = time::add64(acc[0].dts, ticks);
    let first: u64 = units[0].dts;
    for i in 0..n
        invariant
            n == units@.len(),
            n == was.len(),
            want.len() == n,
            forall|j: int|
                0 <= j < n ==> #[trigger] want[j] == (AccessUnitView {
                    dts: moved(was[j].dts, first, expected),
                    ..was[j]
                }),
            forall|j: int| 0 <= j < i ==> (#[trigger] units@[j])@ == want[j],
            forall|j: int| i <= j < n ==> (#[trigger] units@[j])@ == was[j],
    {
        assert(units@[i as int]@ == was[i as int]);
        let dts: u64 = shift(units[i].dts, first, expected);
        units[i].dts = dts;
        assert(units@[i as int]@ == want[i as int]);
    }
    assert(muxer::video_views(units@) =~= want);
}

/// Puts audio frames behind those of `acc`, which last `ticks`.
pub fn align_audio(acc: &[AudioUnit], ticks: u64, units: &mut Vec<AudioUnit>)
    ensures
        muxer::audio_views(final(units)@) == audio_behind(
            muxer::audio_views(acc@),
            ticks,
            muxer::audio_views(old(units)@),
        ),
{
    let n: usize = units.len();
    if acc.len() == 0 || n == 0 {
        return;
    }
    let ghost av = muxer::audio_views(acc@);
    let ghost was = muxer::audio_views(units@);
    let ghost want = audio_behind(av, ticks, was);
    assert(av[0] == acc@[0]@);
    assert(was[0] == units@[0]@);
    let expected: u64 = time::add64(acc[0].pts, ticks);
    let first: u64 = units[0].pts;
    for i in 0..n
        invariant
            n == units@.len(),
            n == was.len(),
            want.len() == n,
            forall|j: int|
                0 <= j < n ==> #[trigger] want[j] == (AudioUnitView {
                    pts: moved(was[j].pts, first, expected),
                    ..was[j]
                }),
            forall|j: int| 0 <= j < i ==> (#[trigger] units@[j])@ == want[j],
            forall|j: int| i <= j < n ==> (#[trigger] units@[j])@ == was[j],
    {
        assert(units@[i as int]@ == was[i as int]);
        let pts: u64 = shift(units[i].pts, first, expected);
        units[i].pts = pts;
        assert(units@[i as int]@ == want[i as int]);
    }
    assert(muxer::audio_views(units@) =~= want);
}

/// The first of the frames that are put behind others starts where those end, as long as that
/// lies in the lower half of the 64-bit circle.
pub proof fn law_no_gap_between_segments(
    acc: Seq<AccessUnitView>,
    ticks: u64,
    units: Seq<AccessUnitView>,
)
    requires
        acc.len() > 0,
        units.len() > 0,
        acc[0].dts + ticks < 0x8000_0000_0000_0000,
    ensures
        video_behind(acc, ticks, units)[0].dts == acc[0].dts + ticks,
        video_behind(acc, ticks, units).len() == units.len(),
{
}

/// Frames that are put behind others are moved together: they stay as far apart as they were, and
/// nothing else of them changes.
pub proof fn law_frames_stay_apart(
    acc: Seq<AccessUnitView>,
    ticks: u64,
    units: Seq<AccessUnitView>,
    i: int,
)
    requires
        acc.len() > 0,
        0 <= i < units.len(),
        units[0].dts <= units[i].dts,
        acc[0].dts + ticks + (units[i].dts - units[0].dts) < 0x8000_0000_0000_0000,
    ensures
        ({
            let r = video_behind(acc, ticks, units);
            &&& r[i].dts - r[0].dts == units[i].dts - units[0].dts
            &&& r[i].dts == acc[0].dts + ticks + (units[i].dts - units[0].dts)
            &&& r[i].nals == units[i].nals
            &&& r[i].cts_offset == units[i].cts_offset
            &&& r[i].is_irap == units[i].is_irap
        }),
{
}

/// So do audio frames.
pub proof fn law_audio_frames_stay_apart(
    acc: Seq<AudioUnitView>,
    ticks: u64,
    units: Seq<AudioUnitView>,
    i: int,
)
    requires
        acc.len() > 0,
        0 <= i < units.len(),
        units[0].pts <= units[i].pts,
        acc[0].pts + ticks + (units[i].pts - units[0].pts) < 0x8000_0000_0000_0000,
    ensures
        ({
            let r = audio_behind(acc, ticks, units);
            &&& r.len() == units.len()
            &&& r[i].pts - r[0].pts == units[i].pts - units[0].pts
            &&& r[i].pts == acc[0].pts + ticks + (units[i].pts - units[0].pts)
            &&& r[i].data == units[i].data
        }),
{
}

/// Frames with nothing before them stay where they are.
pub proof fn law_first_frames_stay(
    ticks: u64,
    video: Seq<AccessUnitView>,
    audio: Seq<AudioUnitView>,
)
    ensures
        video_behind(Seq::empty(), ticks, video) == video,
        audio_behind(Seq::empty(), ticks, audio) == audio,
{
}

/// The durations of the first `n` samples, added up.
pub open spec fn ticks_before(samples: Seq<SampleView>, n: int) -> int
    decreases n,
{
    if n <= 0 {
        0
    } else {
        ticks_before(samples, n - 1) + samples[n - 1].duration
    }
}

proof fn lemma_position(start: u64, samples: Seq<SampleView>, i: int)
    requires
        0 <= i <= samples.len(),
        start + ticks_before(samples, i) <= u64::MAX,
    ensures
        position(start, samples, i) == start + ticks_before(samples, i),
        0 <= ticks_before(samples, i),
    decreases i,
{
    if i > 0 {
        assert(ticks_before(samples, i - 1) <= ticks_before(samples, i));
        lemma_position(start, samples, i - 1);
    }
}

/// Each frame of a segment is decoded behind the start of the segment by the durations of the
/// samples before it, and keeps its bytes and its composition offset.
pub proof fn law_frames_keep_their_times(
    s: SegmentView,
    start: u64,
    codec: VideoCodec,
    aac: Option<AacConfig>,
    i: int,
)
    requires
        0 <= i < s.samples.len(),
        start + ticks_before(s.samples, i) <= u64::MAX,
        0 <= s.samples[i].from <= s.samples[i].to <= s.mdat.len(),
    ensures
        ({
            let bytes = s.mdat.subrange(s.samples[i].from, s.samples[i].to);
            let v = video_units(s, start, codec)[i];
            let a = audio_units(s, start, aac)[i];
            &&& video_units(s, start, codec).len() == s.samples.len()
            &&& audio_units(s, start, aac).len() == s.samples.len()
            &&& v.dts == start + ticks_before(s.samples, i)
            &&& v.cts_offset == s.samples[i].cts_offset
            &&& v.nals == annexb::split_from(bytes, 0)
            &&& a.pts == start + ticks_before(s.samples, i)
            &&& aac is None ==> a.data == bytes
            &&& aac matches Some(c) ==> a.data == c.adts(bytes)
        }),
{
    lemma_position(start, s.samples, i);
}

/// The duration of a segment is that of all its samples.
pub proof fn law_segment_lasts_as_its_samples(samples: Seq<SampleView>)
    requires
        ticks_before(samples, samples.len() as int) <= u64::MAX,
    ensures
        ticks_of(samples) == ticks_before(samples, samples.len() as int),
{
    lemma_position(0, samples, samples.len() as int);
}

/// Segments that state their decode time are placed relative to the first of them; one that is
/// before it is placed at the start.
pub proof fn law_line_counts_from_first_segment(line: Line, first: u64, t: u64)
    requires
        line.origin == UNSET_ORIGIN,
        first != UNSET_ORIGIN,
    ensures
        line.start(Some(first)) == 0,
        line.anchored(Some(first)).start(Some(first)) == 0,
        first <= t ==> line.anchored(Some(first)).start(Some(t)) == t - first,
        t < first ==> line.anchored(Some(first)).start(Some(t)) == 0,
        line.anchored(Some(first)).anchored(Some(t)) == line.anchored(Some(first)),
        line.anchored(Some(first)).total == line.total,
        line.anchored(None) == line,
{
}

/// Segments that state none are placed one behind the other.
pub proof fn law_line_goes_on(line: Line, ticks: u64)
    requires
        line.total + ticks <= u64::MAX,
    ensures
        line.extended(ticks).start(None) == line.start(None) + ticks,
        line.extended(ticks).origin == line.origin,
{
}

/// A segment that is ready to be published.
#[derive(Debug)]
pub struct Published {
    pub duration_ns: i64,
    pub data: Vec<u8>,
    /// The cues of the segment.
    pub subtitle: String,
    pub discontinuity: bool,
}

/// What a value of [`Published`] holds.
#[verifier::ext_equal]
pub struct PublishedView {
    pub duration_ns: i64,
    pub data: Seq<u8>,
    pub subtitle: Seq<char>,
    pub discontinuity: bool,
}

impl View for Published {
    type V = PublishedView;

    open spec fn view(&self) -> PublishedView {
        PublishedView {
            duration_ns: self.duration_ns,
            data: self.data@,
            subtitle: self.subtitle@,
            discontinuity: self.discontinuity,
        }
    }
}

/// What a list of segments holds.
pub open spec fn published_views(v: Seq<Published>) -> Seq<PublishedView> {
    v.map_values(|p: Published| p@)
}

/// Hands a segment to the outputs; the subtitles only where they are switched on.
pub fn publish(
    hls: &mut HlsOutput,
    subtitles: &mut SubtitleOutput,
    subtitles_enabled: bool,
    segment: Published,
)
    ensures
        final(hls)@ == old(hls)@.with_segment(
            segment@.duration_ns,
            segment@.data,
            segment@.discontinuity,
        ),
        final(hls).same_labels(old(hls)),
        final(subtitles)@ == if subtitles_enabled {
            old(subtitles)@.with_segment(
                segment@.duration_ns,
                segment@.subtitle,
                segment@.discontinuity,
            )
        } else {
            old(subtitles)@
        },
{
    if segment.discontinuity {
        hls.push_segment_discontinuity(segment.duration_ns, segment.data);
        if subtitles_enabled {
            subtitles.push_segment_discontinuity(segment.duration_ns, segment.subtitle);
        }
    } else {
        hls.push_segment(segment.duration_ns, segment.data);
        if subtitles_enabled {
            subtitles.push_segment(segment.duration_ns, segment.subtitle);
        }
    }
}

/// The frames of the next segment.
pub struct Buffer {
    pub muxer: TsMuxer,
    pub video: Vec<AccessUnit>,
    pub audio: Vec<AudioUnit>,
    pub video_ticks: u64,
    pub audio_ticks: u64,
    pub subtitles: SubtitleAccumulator,
    /// Whether the next segment starts a new timeline.
    pub discontinuity: bool,
    /// What was muxed and not taken yet.
    pub out: Vec<Published>,
}

/// What a value of [`Buffer`] holds.
#[verifier::ext_equal]
pub struct BufferView {
    pub muxer: MuxerView,
    pub video: Seq<AccessUnitView>,
    pub audio: Seq<AudioUnitView>,
    pub video_ticks: u64,
    pub audio_ticks: u64,
    pub subtitles: AccumulatorView,
    pub discontinuity: bool,
    pub out: Seq<PublishedView>,
}

impl View for Buffer {
    type V = BufferView;

    open spec fn view(&self) -> BufferView {
        BufferView {
            muxer: self.muxer@,
            video: muxer::video_views(self.video@),
            audio: muxer::audio_views(self.audio@),
            video_ticks: self.video_ticks,
            audio_ticks: self.audio_ticks,
            subtitles: self.subtitles@,
            discontinuity: self.discontinuity,
            out: published_views(self.out@),
        }
    }
}

/// No subtitles.
pub open spec fn no_subtitles() -> AccumulatorView {
    AccumulatorView { body: Seq::empty(), duration_ns: 0 }
}

impl BufferView {
    /// Nothing but the muxer.
    pub open spec fn empty(muxer: MuxerView) -> Self {
        BufferView {
            muxer,
            video: Seq::empty(),
            audio: Seq::empty(),
            video_ticks: 0,
            audio_ticks: 0,
            subtitles: no_subtitles(),
            discontinuity: false,
            out: Seq::empty(),
        }
    }

    /// The segment that the frames make.
    pub open spec fn segment(self, duration_ns: i64) -> PublishedView {
        PublishedView {
            duration_ns,
            data: self.muxer.segment(self.video, self.audio).bytes,
            subtitle: self.subtitles.body,
            discontinuity: self.discontinuity,
        }
    }

    /// With the frames muxed, where there is video.
    pub open spec fn flushed(self, duration_ns: i64) -> Self {
        if self.video.len() == 0 {
            self
        } else {
            BufferView {
                muxer: MuxerView {
                    counters: self.muxer.segment(self.video, self.audio).counters,
                    ..self.muxer
                },
                video: Seq::empty(),
                audio: Seq::empty(),
                video_ticks: 0,
                audio_ticks: 0,
                subtitles: no_subtitles(),
                discontinuity: false,
                out: self.out.push(self.segment(duration_ns)),
            }
        }
    }

    /// Without the frames.
    pub open spec fn dropped(self) -> Self {
        BufferView {
            video: Seq::empty(),
            audio: Seq::empty(),
            video_ticks: 0,
            audio_ticks: 0,
            subtitles: no_subtitles(),
            ..self
        }
    }

    /// With the subtitles of a segment, or time without any.
    pub open spec fn with_subtitle(
        self,
        body: Option<Seq<char>>,
        duration_ns: i64,
    ) -> Self {
        BufferView {
            subtitles: AccumulatorView {
                body: match body {
                    Some(b) => fragment::with_body(self.subtitles.body, b),
                    None => self.subtitles.body,
                },
                duration_ns: fragment::with_duration(self.subtitles.duration_ns, duration_ns),
            },
            ..self
        }
    }
}

impl Buffer {
    /// Whether the muxer can write.
    pub open spec fn wf(&self) -> bool {
        self.muxer.wf()
    }

    /// Nothing but the muxer.
    pub fn new(muxer: TsMuxer) -> (r: Self)
        ensures
            r@ == BufferView::empty(muxer@),
            r.wf() == muxer.wf(),
    {
        let r = Buffer {
            muxer,
            video: Vec::new(),
            audio: Vec::new(),
            video_ticks: 0,
            audio_ticks: 0,
            subtitles: SubtitleAccumulator::new(),
            discontinuity: false,
            out: Vec::new(),
        };
        assert(r@ =~= BufferView::empty(muxer@));
        r
    }

    /// Muxes the frames, where there is video.
    pub fn flush(&mut self, duration_ns: i64)
        requires
            old(self).wf(),
        ensures
            final(self)@ == old(self)@.flushed(duration_ns),
            final(self).wf(),
    {
        if self.video.len() == 0 {
            return;
        }
        let data: Vec<u8> = self.muxer.mux_segment(self.video.as_slice(), self.audio.as_slice());
        let subtitle: String = self.subtitles.take_body();
        let p = Published { duration_ns, data, subtitle, discontinuity: self.discontinuity };
        assert(p@ =~= old(self)@.segment(duration_ns));
        self.out.push(p);
        self.discontinuity = false;
        self.video = Vec::new();
        self.audio = Vec::new();
        self.video_ticks = 0;
        self.audio_ticks = 0;
        assert(self@ =~= old(self)@.flushed(duration_ns));
    }

    /// Forgets the frames.
    pub fn drop_frames(&mut self)
        ensures
            final(self)@ == old(self)@.dropped(),
            final(self).wf() == old(self).wf(),
    {
        self.video = Vec::new();
        self.audio = Vec::new();
        self.subtitles.clear();
        self.video_ticks = 0;
        self.audio_ticks = 0;
        assert(self@ =~= old(self)@.dropped());
    }

    /// Hands out what was muxed.
    pub fn take_published(&mut self) -> (r: Vec<Published>)
        ensures
            published_views(r@) == old(self)@.out,
            final(self)@ == (BufferView { out: Seq::empty(), ..old(self)@ }),
            final(self).wf() == old(self).wf(),
    {
        let mut r: Vec<Published> = Vec::new();
        std::mem::swap(&mut r, &mut self.out);
        assert(self@ =~= (BufferView { out: Seq::empty(), ..old(self)@ }));
        r
    }
}

} // verus!
