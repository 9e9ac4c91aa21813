//! Segments of a DASH source put together: frames are collected until they make a segment that is
//! long enough and has enough audio.

use vstd::prelude::*;

use super::audio_gap;
use super::buffer;
use super::buffer::{Buffer, BufferView, Line, Published, UNSET_ORIGIN};
use super::live_tuning::{AGGREGATE_TARGET_S, SHORT_SEG_THRESHOLD_S};
use super::matching;
use super::matching::{MIN_MEDIA_COVERAGE_DEN, MIN_MEDIA_COVERAGE_NUM};
use crate::crypto::cenc;
use crate::crypto::cenc::{Decryptor, DecryptorView};
use crate::hevc::annexb::{AccessUnit, AccessUnitView};
use crate::mp4::aac::AacConfig;
use crate::mp4::sample;
use crate::mp4::sample::{parse_media_segment, ParsedSegment, SegmentView};
use crate::subtitle::fragment;
use crate::text;
use crate::time;
use crate::time::Span;
use crate::ts::muxer;
use crate::ts::muxer::{AudioUnit, AudioUnitView, TsMuxer};
use crate::ts::VideoCodec;

verus! {

/// Why a segment cannot be taken.
#[derive(Debug, Clone, Copy, PartialEq, Eq, Structural)]
pub enum SegmentError {
    VideoUnreadable,
    /// A video sample starts behind the media data.
    VideoTruncated,
    AudioUnreadable,
    AudioEmpty,
    /// An audio sample starts behind the media data.
    AudioTruncated,
    AudioMissing,
}

impl SegmentError {
    /// What is said of the segment `num`: the words before its number, and those behind it.
    pub open spec fn words(self) -> (Seq<char>, Seq<char>) {
        match self {
            SegmentError::VideoUnreadable => ("parse video seg #"@, " failed"@),
            SegmentError::VideoTruncated => ("video seg #"@, " is truncated"@),
            SegmentError::AudioUnreadable => ("parse audio seg #"@, " failed"@),
            SegmentError::AudioEmpty => ("audio seg #"@, " has no samples"@),
            SegmentError::AudioTruncated => ("audio seg #"@, " is truncated"@),
            SegmentError::AudioMissing => ("audio seg #"@, " missing"@),
        }
    }

    /// The error in words.
    pub fn message(&self, num: u64) -> (r: String)
        ensures
            r@ == self.words().0 + text::decimal(num as int) + self.words().1,
    {
        let w: (&str, &str) = match self {
            SegmentError::VideoUnreadable => ("parse video seg #", " failed"),
            SegmentError::VideoTruncated => ("video seg #", " is truncated"),
            SegmentError::AudioUnreadable => ("parse audio seg #", " failed"),
            SegmentError::AudioEmpty => ("audio seg #", " has no samples"),
            SegmentError::AudioTruncated => ("audio seg #", " is truncated"),
            SegmentError::AudioMissing => ("audio seg #", " missing"),
        };
        let mut out: String = text::clone_text(w.0);
        text::push_decimal(&mut out, num);
        text::push_str(&mut out, w.1);
        out
    }
}

/// Whether there is audio for nine tenths of the video.
pub open spec fn enough_audio(
    audio_required: bool,
    audio_ticks: u64,
    audio_timescale: u32,
    video_ticks: u64,
    video_timescale: u32,
) -> bool {
    let in_video_ticks = audio_ticks * matching::rate(video_timescale) / matching::rate(
        audio_timescale,
    );
    ||| !audio_required
    ||| video_ticks == 0
    ||| audio_ticks > 0 && in_video_ticks * MIN_MEDIA_COVERAGE_DEN >= video_ticks
        * MIN_MEDIA_COVERAGE_NUM
}

/// Whether there is enough audio for the video.
pub fn aggregate_audio_ready(
    audio_required: bool,
    audio_dur_ts: u64,
    audio_timescale: u32,
    video_dur_ts: u64,
    video_timescale: u32,
) -> (r: bool)
    ensures
        r == enough_audio(
            audio_required,
            audio_dur_ts,
            audio_timescale,
            video_dur_ts,
            video_timescale,
        ),
{
    if !audio_required || video_dur_ts == 0 {
        return true;
    }
    if audio_dur_ts == 0 {
        return false;
    }
    let v: u64 = matching::to_rate(video_timescale);
    let a: u64 = matching::to_rate(audio_timescale);
    assert(audio_dur_ts * v <= 0xffff_ffff_ffff_ffff * 0xffff_ffff) by (nonlinear_arith)
        requires
            0 <= audio_dur_ts <= 0xffff_ffff_ffff_ffff,
            0 <= v <= 0xffff_ffff,
    ;
    let product: u128 = audio_dur_ts as u128 * v as u128;
    assert(product as int / a as int <= product) by (nonlinear_arith)
        requires
            a >= 1,
            product >= 0,
    ;
    let scaled: u128 = product / a as u128;
    let den: u128 = MIN_MEDIA_COVERAGE_DEN as u128;
    let num: u128 = MIN_MEDIA_COVERAGE_NUM as u128;
    assert(den == 10 && num == 9);
    scaled * den >= video_dur_ts as u128 * num
}

/// Whether ticks make `seconds`. Of ticks without a length any number does.
pub open spec fn reaches(ticks: u64, timescale: u32, seconds: int) -> bool {
    if timescale == 0 {
        ticks > 0
    } else {
        ticks >= seconds * timescale
    }
}

fn is_reached(ticks: u64, timescale: u32, seconds: u64) -> (r: bool)
    requires
        seconds <= 60,
    ensures
        r == reaches(ticks, timescale, seconds as int),
{
    if timescale == 0 {
        ticks > 0
    } else {
        assert(seconds * timescale <= 60 * 0xffff_ffff) by (nonlinear_arith)
            requires
                0 <= seconds <= 60,
                0 <= timescale <= 0xffff_ffff,
        ;
        ticks >= seconds * timescale as u64
    }
}

/// What opens the tracks of a source.
pub struct Openers {
    pub video: Option<Decryptor>,
    pub audio: Option<Decryptor>,
    pub subtitle: Option<Decryptor>,
}

/// What a value of [`Openers`] holds.
pub struct OpenersView {
    pub video: Option<DecryptorView>,
    pub audio: Option<DecryptorView>,
    pub subtitle: Option<DecryptorView>,
}

/// What an optional decryptor holds.
pub open spec fn opener(d: Option<Decryptor>) -> Option<DecryptorView> {
    match d {
        Some(x) => Some(x@),
        None => None,
    }
}

impl View for Openers {
    type V = OpenersView;

    open spec fn view(&self) -> OpenersView {
        OpenersView {
            video: opener(self.video),
            audio: opener(self.audio),
            subtitle: opener(self.subtitle),
        }
    }
}

/// Decrypts a segment.
pub fn open_segment(p: &mut ParsedSegment, d: &Option<Decryptor>)
    ensures
        final(p)@ == fragment::opened(old(p)@, opener(*d)),
{
    if let Some(x) = d {
        x.decrypt_segment(&mut p.mdat, p.samples.as_slice());
    }
}

/// A segment as it was fetched.
pub struct DownloadedSegment {
    pub num: u64,
    pub video: Vec<u8>,
    pub audio: Option<Vec<u8>>,
    pub subtitle: Option<Vec<u8>>,
    /// The duration that the manifest states, in ticks of the video.
    pub dur_ts: u64,
}

/// What a value of [`DownloadedSegment`] holds.
pub struct DownloadedView {
    pub num: u64,
    pub video: Seq<u8>,
    pub audio: Option<Seq<u8>>,
    pub subtitle: Option<Seq<u8>>,
    pub dur_ts: u64,
}

/// What optional bytes hold.
pub open spec fn opt_bytes(b: Option<Vec<u8>>) -> Option<Seq<u8>> {
    match b {
        Some(x) => Some(x@),
        None => None,
    }
}

impl View for DownloadedSegment {
    type V = DownloadedView;

    open spec fn view(&self) -> DownloadedView {
        DownloadedView {
            num: self.num,
            video: self.video@,
            audio: opt_bytes(self.audio),
            subtitle: opt_bytes(self.subtitle),
            dur_ts: self.dur_ts,
        }
    }
}

/// The pipeline of a DASH source behind the downloads.
pub struct Aggregate {
    pub buffer: Buffer,
    pub video_codec: VideoCodec,
    pub aac: Option<AacConfig>,
    pub video_timescale: u32,
    pub subtitle_timescale: u32,
    pub audio_required: bool,
    pub last_tfdt: Option<u64>,
    pub video_line: Line,
    pub audio_line: Line,
}

/// What a value of [`Aggregate`] holds.
#[verifier::ext_equal]
pub struct AggregateView {
    pub buffer: BufferView,
    pub video_codec: VideoCodec,
    pub aac: Option<AacConfig>,
    pub video_timescale: u32,
    pub subtitle_timescale: u32,
    pub audio_required: bool,
    pub last_tfdt: Option<u64>,
    pub video_line: Line,
    pub audio_line: Line,
}

impl View for Aggregate {
    type V = AggregateView;

    open spec fn view(&self) -> AggregateView {
        AggregateView {
            buffer: self.buffer@,
            video_codec: self.video_codec,
            aac: self.aac,
            video_timescale: self.video_timescale,
            subtitle_timescale: self.subtitle_timescale,
            audio_required: self.audio_required,
            last_tfdt: self.last_tfdt,
            video_line: self.video_line,
            audio_line: self.audio_line,
        }
    }
}

impl AggregateView {
    /// Whether there is enough audio for the video so far.
    pub open spec fn audio_ready(self) -> bool {
        enough_audio(
            self.audio_required,
            self.buffer.audio_ticks,
            self.buffer.muxer.audio_timescale,
            self.buffer.video_ticks,
            self.video_timescale,
        )
    }

    /// With the frames so far muxed.
    pub open spec fn flushed(self) -> Self {
        AggregateView {
            buffer: self.buffer.flushed(
                (Span { ticks: self.buffer.video_ticks, scale: self.video_timescale }).ns(),
            ),
            ..self
        }
    }

    /// With a new timeline behind the frames so far, which are muxed where they have enough audio
    /// and dropped otherwise.
    pub open spec fn at_boundary(self) -> Self {
        let b = if self.audio_ready() {
            self.flushed().buffer
        } else if self.buffer.video.len() > 0 {
            self.buffer.dropped()
        } else {
            self.buffer
        };
        AggregateView {
            buffer: BufferView { discontinuity: true, ..b },
            video_line: Line { origin: UNSET_ORIGIN, ..self.video_line },
            audio_line: Line { origin: UNSET_ORIGIN, ..self.audio_line },
            ..self
        }
    }

    /// Before the frames of a segment: a decode time that goes back starts a new timeline at 0.
    pub open spec fn before_segment(self, base: Option<u64>) -> Self {
        if buffer::rewound(self.last_tfdt, base) {
            let s = self.at_boundary();
            AggregateView {
                video_line: Line { total: 0, ..s.video_line },
                audio_line: Line { total: 0, ..s.audio_line },
                ..s
            }
        } else {
            self
        }
    }

    /// Once the video of a segment has its place.
    pub open spec fn video_placed(self, v: SegmentView) -> Self {
        let s = self.before_segment(v.base_media_decode_time);
        AggregateView {
            last_tfdt: v.base_media_decode_time,
            video_line: s.video_line.anchored(v.base_media_decode_time).extended(
                buffer::ticks_of(v.samples),
            ),
            ..s
        }
    }

    /// The access units of a segment.
    pub open spec fn video_of(self, v: SegmentView) -> Seq<AccessUnitView> {
        buffer::video_units(
            v,
            self.before_segment(v.base_media_decode_time).video_line.start(
                v.base_media_decode_time,
            ),
            self.video_codec,
        )
    }

    /// Once the audio of a segment has its place.
    pub open spec fn audio_placed(self, a: Option<SegmentView>) -> Self {
        match a {
            None => self,
            Some(s) => AggregateView {
                audio_line: self.audio_line.anchored(s.base_media_decode_time).extended(
                    buffer::ticks_of(s.samples),
                ),
                ..self
            },
        }
    }

    /// The audio frames of a segment, fitted behind those so far.
    pub open spec fn audio_of(self, a: Option<SegmentView>) -> audio_gap::Joined {
        match a {
            None => audio_gap::Joined { units: Seq::empty(), durations: Seq::empty() },
            Some(s) => audio_gap::joined(
                self.buffer.audio,
                self.buffer.audio_ticks,
                buffer::audio_units(
                    s,
                    self.audio_line.start(s.base_media_decode_time),
                    self.aac,
                ),
                buffer::durations_of(s.samples),
                self.buffer.muxer.audio_timescale,
            ),
        }
    }

    /// With the frames of a segment behind those so far.
    pub open spec fn with_frames(
        self,
        video: Seq<AccessUnitView>,
        audio: audio_gap::Joined,
        dur_ts: u64,
    ) -> Self {
        AggregateView {
            buffer: BufferView {
                video: self.buffer.video + buffer::video_behind(
                    self.buffer.video,
                    self.buffer.video_ticks,
                    video,
                ),
                audio: self.buffer.audio + audio.units,
                video_ticks: time::sum64(self.buffer.video_ticks, dur_ts),
                audio_ticks: time::sum64(
                    self.buffer.audio_ticks,
                    audio_gap::sum_of(audio.durations, audio.durations.len() as int),
                ),
                ..self.buffer
            },
            ..self
        }
    }

    /// The cues of a segment behind those so far.
    pub open spec fn cues_of(
        self,
        data: Option<Seq<u8>>,
        duration_ns: i64,
        d: Option<DecryptorView>,
    ) -> Option<Seq<char>> {
        match data {
            None => None,
            Some(b) => Some(
                fragment::fragment_body(
                    b,
                    self.buffer.subtitles.duration_ns as int,
                    time::not_below_zero(duration_ns) as int,
                    self.subtitle_timescale,
                    d,
                    None,
                ),
            ),
        }
    }

    /// Whether the frames make a segment: they are long enough, or the last part is long by
    /// itself, and there is enough audio.
    pub open spec fn is_full(self, dur_ts: u64) -> bool {
        &&& reaches(self.buffer.video_ticks, self.video_timescale, AGGREGATE_TARGET_S as int)
            || reaches(dur_ts, self.video_timescale, SHORT_SEG_THRESHOLD_S as int)
        &&& self.audio_ready()
    }

    /// With the subtitles of a segment, and muxed if that is enough.
    pub open spec fn finished(
        self,
        subtitle: Option<Seq<u8>>,
        dur_ts: u64,
        d: Option<DecryptorView>,
    ) -> Self {
        let ns = (Span { ticks: dur_ts, scale: self.video_timescale }).ns();
        let s = AggregateView {
            buffer: self.buffer.with_subtitle(self.cues_of(subtitle, ns, d), ns),
            ..self
        };
        if s.is_full(dur_ts) {
            s.flushed()
        } else {
            s
        }
    }

    /// Why the audio of a segment cannot be taken.
    pub open spec fn audio_error(self, audio: Option<Seq<u8>>) -> Option<SegmentError> {
        match audio {
            None => if self.audio_required {
                Some(SegmentError::AudioMissing)
            } else {
                None
            },
            Some(b) => match sample::segment_of(b, None) {
                None => Some(SegmentError::AudioUnreadable),
                Some(s) => if s.samples.len() == 0 {
                    Some(SegmentError::AudioEmpty)
                } else if !buffer::whole(s) {
                    Some(SegmentError::AudioTruncated)
                } else {
                    None
                },
            },
        }
    }

    /// The audio of a segment, decrypted.
    pub open spec fn opened_audio(audio: Option<Seq<u8>>, d: Option<DecryptorView>) -> Option<
        SegmentView,
    > {
        match audio {
            None => None,
            Some(b) => match sample::segment_of(b, None) {
                None => None,
                Some(s) => Some(fragment::opened(s, d)),
            },
        }
    }

    /// Why a segment cannot be taken.
    pub open spec fn error_of(self, seg: DownloadedView) -> Option<SegmentError> {
        match sample::segment_of(seg.video, None) {
            None => Some(SegmentError::VideoUnreadable),
            Some(s) => if !buffer::whole(s) {
                Some(SegmentError::VideoTruncated)
            } else {
                self.audio_error(seg.audio)
            },
        }
    }

    /// What is left once a segment was taken or refused. One whose video is readable leaves its
    /// place on the timeline even where its audio is not.
    pub open spec fn with_segment(self, seg: DownloadedView, d: OpenersView) -> Self {
        match self.error_of(seg) {
            Some(SegmentError::VideoUnreadable) => self,
            Some(SegmentError::VideoTruncated) => self,
            Some(_) => self.video_placed(
                fragment::opened(sample::segment_of(seg.video, None)->0, d.video),
            ),
            None => {
                let v = fragment::opened(sample::segment_of(seg.video, None)->0, d.video);
                let a = Self::opened_audio(seg.audio, d.audio);
                let s = self.video_placed(v);
                s.audio_placed(a).with_frames(
                    self.video_of(v),
                    s.audio_of(a),
                    seg.dur_ts,
                ).finished(seg.subtitle, seg.dur_ts, d.subtitle)
            },
        }
    }

    /// At the end of the source: what is left is muxed, if it has enough audio.
    pub open spec fn ended(self) -> Self {
        if self.audio_ready() {
            self.flushed()
        } else {
            self
        }
    }
}

impl Aggregate {
    /// Whether the muxer can write.
    pub open spec fn wf(&self) -> bool {
        self.buffer.wf()
    }

    /// A pipeline that goes on behind `video_line` and `audio_line`.
    pub fn new(
        muxer: TsMuxer,
        video_codec: VideoCodec,
        aac: Option<AacConfig>,
        video_timescale: u32,
        subtitle_timescale: u32,
        audio_required: bool,
        video_line: Line,
        audio_line: Line,
    ) -> (r: Self)
        ensures
            r@ == (AggregateView {
                buffer: BufferView::empty(muxer@),
                video_codec,
                aac,
                video_timescale,
                subtitle_timescale,
                audio_required,
                last_tfdt: None,
                video_line,
                audio_line,
            }),
            r.wf() == muxer.wf(),
    {
        Aggregate {
            buffer: Buffer::new(muxer),
            video_codec,
            aac,
            video_timescale,
            subtitle_timescale,
            audio_required,
            last_tfdt: None,
            video_line,
            audio_line,
        }
    }

    /// Whether there is enough audio for the video so far.
    pub fn is_audio_ready(&self) -> (r: bool)
        ensures
            r == self@.audio_ready(),
    {
        aggregate_audio_ready(
            self.audio_required,
            self.buffer.audio_ticks,
            self.buffer.muxer.audio_ticks(),
            self.buffer.video_ticks,
            self.video_timescale,
        )
    }

    /// Muxes the frames so far.
    pub fn flush(&mut self)
        requires
            old(self).wf(),
        ensures
            final(self)@ == old(self)@.flushed(),
            final(self).wf(),
    {
        let ns: i64 = (Span {
            ticks: self.buffer.video_ticks,
            scale: self.video_timescale,
        }).to_ns();
        self.buffer.flush(ns);
        assert(self@ =~= old(self)@.flushed());
    }

    /// Starts a new timeline.
    pub fn mark_boundary(&mut self)
        requires
            old(self).wf(),
        ensures
            final(self)@ == old(self)@.at_boundary(),
            final(self).wf(),
    {
        if self.is_audio_ready() {
            self.flush();
        } else if self.buffer.video.len() > 0 {
            self.buffer.drop_frames();
        }
        self.buffer.discontinuity = true;
        self.video_line.origin = UNSET_ORIGIN;
        self.audio_line.origin = UNSET_ORIGIN;
        assert(self@ =~= old(self)@.at_boundary());
    }

    fn place_video(&mut self, v: &ParsedSegment) -> (r: Vec<AccessUnit>)
        requires
            old(self).wf(),
            buffer::whole(v@),
        ensures
            final(self)@ == old(self)@.video_placed(v@),
            muxer::video_views(r@) == old(self)@.video_of(v@),
            final(self).wf(),
    {
        if buffer::timeline_rewound(self.last_tfdt, v.base_media_decode_time) {
            self.mark_boundary();
            self.video_line.total = 0;
            self.audio_line.total = 0;
        }
        assert(self@ =~= old(self)@.before_segment(v@.base_media_decode_time));
        self.last_tfdt = v.base_media_decode_time;
        let start: u64 = self.video_line.place(v.base_media_decode_time);
        let units: Vec<AccessUnit> = buffer::make_video_units(v, start, self.video_codec);
        self.video_line.extend(buffer::total_ticks(v));
        assert(self@ =~= old(self)@.video_placed(v@));
        units
    }

    fn read_audio(&self, audio: &Option<Vec<u8>>) -> (r: Result<
        Option<ParsedSegment>,
        SegmentError,
    >)
        ensures
            match r {
                Err(e) => self@.audio_error(opt_bytes(*audio)) == Some(e),
                Ok(None) => self@.audio_error(opt_bytes(*audio)) is None && *audio is None,
                Ok(Some(s)) => {
                    &&& self@.audio_error(opt_bytes(*audio)) is None
                    &&& *audio is Some
                    &&& sample::segment_of(audio->0@, None) == Some(s@)
                    &&& buffer::whole(s@)
                },
            },
    {
        match audio {
            None => {
                if self.audio_required {
                    Err(SegmentError::AudioMissing)
                } else {
                    Ok(None)
                }
            },
            Some(b) => match parse_media_segment(b.as_slice()) {
                None => Err(SegmentError::AudioUnreadable),
                Some(s) => {
                    assert(s@.samples.len() == s.samples@.len());
                    if s.samples.len() == 0 {
                        Err(SegmentError::AudioEmpty)
                    } else if !buffer::is_whole(&s) {
                        Err(SegmentError::AudioTruncated)
                    } else {
                        Ok(Some(s))
                    }
                },
            },
        }
    }

    fn place_audio(&mut self, a: Option<ParsedSegment>) -> (r: (Vec<AudioUnit>, u64))
        requires
            a is Some ==> buffer::whole(a->0@),
        ensures
            ({
                let s = match a {
                    Some(x) => Some(x@),
                    None => None,
                };
                let j = old(self)@.audio_of(s);
                &&& final(self)@ == old(self)@.audio_placed(s)
                &&& muxer::audio_views(r.0@) == j.units
                &&& r.1 == audio_gap::sum_of(j.durations, j.durations.len() as int)
            }),
            final(self).wf() == old(self).wf(),
    {
        match a {
            None => {
                let none: Vec<AudioUnit> = Vec::new();
                assert(muxer::audio_views(none@) =~= Seq::<AudioUnitView>::empty());
                (none, 0)
            },
            Some(s) => {
                let start: u64 = self.audio_line.place(s.base_media_decode_time);
                let mut units: Vec<AudioUnit> = buffer::make_audio_units(&s, start, &self.aac);
                let mut durations: Vec<u64> = buffer::sample_durations(&s);
                self.audio_line.extend(buffer::total_ticks(&s));
                let kept: u64 = audio_gap::trim_or_close_audio_gap(
                    self.buffer.audio.as_slice(),
                    self.buffer.audio_ticks,
                    &mut units,
                    &mut durations,
                    self.buffer.muxer.audio_ticks(),
                );
                assert(self@ =~= old(self)@.audio_placed(Some(s@)));
                (units, kept)
            },
        }
    }

    fn append_frames(
        &mut self,
        video: Vec<AccessUnit>,
        audio: Vec<AudioUnit>,
        audio_ticks: u64,
        dur_ts: u64,
        durations: Ghost<Seq<u64>>,
    )
        requires
            audio_ticks == audio_gap::sum_of(durations@, durations@.len() as int),
        ensures
            final(self)@ == old(self)@.with_frames(
                muxer::video_views(video@),
                (audio_gap::Joined { units: muxer::audio_views(audio@), durations: durations@ }),
                dur_ts,
            ),
            final(self).wf() == old(self).wf(),
    {
        let ghost j = audio_gap::Joined {
            units: muxer::audio_views(audio@),
            durations: durations@,
        };
        let ghost vv = muxer::video_views(video@);
        let mut video = video;
        let mut audio = audio;
        let ghost before_v = self.buffer.video@;
        let ghost before_a = self.buffer.audio@;
        buffer::align_video(self.buffer.video.as_slice(), self.buffer.video_ticks, &mut video);
        let ghost placed = video@;
        let ghost frames = audio@;
        self.buffer.video.append(&mut video);
        self.buffer.audio.append(&mut audio);
        assert(muxer::video_views(self.buffer.video@) =~= muxer::video_views(before_v)
            + muxer::video_views(placed));
        assert(muxer::audio_views(self.buffer.audio@) =~= muxer::audio_views(before_a)
            + muxer::audio_views(frames));
        self.buffer.video_ticks = time::add64(self.buffer.video_ticks, dur_ts);
        self.buffer.audio_ticks = time::add64(self.buffer.audio_ticks, audio_ticks);
        assert(self@ =~= old(self)@.with_frames(vv, j, dur_ts));
    }

    fn finish_segment(
        &mut self,
        subtitle: &Option<Vec<u8>>,
        dur_ts: u64,
        d: &Option<Decryptor>,
    )
        requires
            old(self).wf(),
        ensures
            final(self)@ == old(self)@.finished(opt_bytes(*subtitle), dur_ts, opener(*d)),
            final(self).wf(),
    {
        let ns: i64 = (Span { ticks: dur_ts, scale: self.video_timescale }).to_ns();
        match subtitle {
            Some(b) => {
                self.buffer.subtitles.append_fragment(
                    b.as_slice(),
                    ns,
                    self.subtitle_timescale,
                    d.as_ref(),
                    None,
                );
            },
            None => {
                self.buffer.subtitles.append_empty(ns);
            },
        }
        let ghost s = AggregateView {
            buffer: old(self)@.buffer.with_subtitle(
                old(self)@.cues_of(opt_bytes(*subtitle), ns, opener(*d)),
                ns,
            ),
            ..old(self)@
        };
        assert(self@ =~= s);
        let long: bool = is_reached(
            self.buffer.video_ticks,
            self.video_timescale,
            AGGREGATE_TARGET_S,
        ) || is_reached(dur_ts, self.video_timescale, SHORT_SEG_THRESHOLD_S);
        if long && self.is_audio_ready() {
            self.flush();
        }
    }

    /// Takes a segment.
    pub fn process_segment(&mut self, seg: &DownloadedSegment, d: &Openers) -> (r: Result<
        (),
        SegmentError,
    >)
        requires
            old(self).wf(),
        ensures
            final(self)@ == old(self)@.with_segment(seg@, d@),
            final(self).wf(),
            match r {
                Ok(()) => old(self)@.error_of(seg@) is None,
                Err(e) => old(self)@.error_of(seg@) == Some(e),
            },
    {
        let mut v: ParsedSegment = match parse_media_segment(seg.video.as_slice()) {
            None => return Err(SegmentError::VideoUnreadable),
            Some(s) => s,
        };
        if !buffer::is_whole(&v) {
            return Err(SegmentError::VideoTruncated);
        }
        let ghost read = v@;
        open_segment(&mut v, &d.video);
        proof {
            lemma_opened_is_whole(read, opener(d.video));
        }
        let units: Vec<AccessUnit> = self.place_video(&v);
        assert(self.audio_required == old(self).audio_required);
        let audio: Option<ParsedSegment> = match self.read_audio(&seg.audio) {
            Err(e) => return Err(e),
            Ok(None) => None,
            Ok(Some(s)) => {
                let mut a: ParsedSegment = s;
                let ghost read_audio = a@;
                open_segment(&mut a, &d.audio);
                proof {
                    lemma_opened_is_whole(read_audio, opener(d.audio));
                }
                Some(a)
            },
        };
        let ghost a = AggregateView::opened_audio(seg@.audio, d@.audio);
        let ghost placed = self@;
        let (frames, ticks) = self.place_audio(audio);
        let ghost j = placed.audio_of(a);
        self.append_frames(units, frames, ticks, seg.dur_ts, Ghost(j.durations));
        self.finish_segment(&seg.subtitle, seg.dur_ts, &d.subtitle);
        Ok(())
    }

    /// Takes the end of the source.
    pub fn finish(&mut self)
        requires
            old(self).wf(),
        ensures
            final(self)@ == old(self)@.ended(),
            final(self).wf(),
    {
        if self.is_audio_ready() {
            self.flush();
        }
    }

    /// Hands out what was muxed.
    pub fn take_published(&mut self) -> (r: Vec<Published>)
        ensures
            buffer::published_views(r@) == old(self)@.buffer.out,
            final(self)@ == (AggregateView {
                buffer: BufferView { out: Seq::empty(), ..old(self)@.buffer },
                ..old(self)@
            }),
            final(self).wf() == old(self).wf(),
    {
        self.buffer.take_published()
    }
}

/// A decrypted segment is as whole as it was.
pub proof fn lemma_opened_is_whole(s: SegmentView, d: Option<DecryptorView>)
    requires
        buffer::whole(s),
    ensures
        buffer::whole(fragment::opened(s, d)),
{
    if let Some(x) = d {
        cenc::law_plain_segment_keeps_length(x, s.mdat, s.samples, s.samples.len() as int);
    }
}

/// No segment is published that has video without enough audio, as long as audio is required:
/// what a segment adds to the output, it adds with enough audio behind it.
pub proof fn law_published_has_audio(a: AggregateView, subtitle: Option<Seq<u8>>, dur_ts: u64, d:
    Option<DecryptorView>)
    requires
        a.finished(subtitle, dur_ts, d).buffer.out.len() > a.buffer.out.len(),
    ensures
        enough_audio(
            a.audio_required,
            a.buffer.audio_ticks,
            a.buffer.muxer.audio_timescale,
            a.buffer.video_ticks,
            a.video_timescale,
        ),
{
}

proof fn lemma_flush_appends(a: AggregateView)
    ensures
        a.buffer.out.is_prefix_of(a.flushed().buffer.out),
{
}

proof fn lemma_place_appends(a: AggregateView, v: SegmentView)
    ensures
        a.buffer.out.is_prefix_of(a.video_placed(v).buffer.out),
{
    let base = v.base_media_decode_time;
    assert(a.video_placed(v).buffer == a.before_segment(base).buffer);
    if buffer::rewound(a.last_tfdt, base) {
        lemma_flush_appends(a);
        assert(a.buffer.out.is_prefix_of(a.at_boundary().buffer.out));
    }
}

proof fn lemma_finish_appends(
    a: AggregateView,
    subtitle: Option<Seq<u8>>,
    dur_ts: u64,
    d: Option<DecryptorView>,
)
    ensures
        a.buffer.out.is_prefix_of(a.finished(subtitle, dur_ts, d).buffer.out),
{
    let ns = (Span { ticks: dur_ts, scale: a.video_timescale }).ns();
    let s = AggregateView {
        buffer: a.buffer.with_subtitle(a.cues_of(subtitle, ns, d), ns),
        ..a
    };
    assert(s.buffer.out == a.buffer.out);
    lemma_flush_appends(s);
}

/// Nothing that was muxed is lost: a segment only appends to the output.
pub proof fn law_output_only_grows(a: AggregateView, seg: DownloadedView, d: OpenersView)
    ensures
        a.buffer.out.is_prefix_of(a.with_segment(seg, d).buffer.out),
{
    let before = a.buffer.out;
    let v = fragment::opened(sample::segment_of(seg.video, None)->0, d.video);
    let s = a.video_placed(v);
    lemma_place_appends(a, v);
    if a.error_of(seg) is None {
        let audio = AggregateView::opened_audio(seg.audio, d.audio);
        let f = s.audio_placed(audio).with_frames(a.video_of(v), s.audio_of(audio), seg.dur_ts);
        assert(f.buffer.out == s.buffer.out);
        lemma_finish_appends(f, seg.subtitle, seg.dur_ts, d.subtitle);
        assert(a.with_segment(seg, d) == f.finished(seg.subtitle, seg.dur_ts, d.subtitle));
        let after = a.with_segment(seg, d).buffer.out;
        assert(before.is_prefix_of(s.buffer.out) && s.buffer.out.is_prefix_of(after));
        assert(before =~= after.subrange(0, before.len() as int)) by {
            assert forall|i: int| 0 <= i < before.len() implies before[i] == after[i] by {
                assert(before[i] == s.buffer.out[i]);
            }
        }
    }
}

/// The segment behind a boundary carries the discontinuity, whatever comes before it.
pub proof fn law_boundary_is_marked(a: AggregateView)
    ensures
        a.at_boundary().buffer.discontinuity,
        a.at_boundary().buffer.video.len() == 0,
        a.at_boundary().buffer.audio_ticks == 0 || a.buffer.video.len() == 0,
{
}

/// Frames are muxed once they last 8 seconds, or once a segment lasts 4 by itself, if there is audio
/// for nine tenths of them where there must be audio; and not before.
pub proof fn law_frames_are_muxed_when_long(
    a: AggregateView,
    subtitle: Option<Seq<u8>>,
    dur_ts: u64,
    d: Option<DecryptorView>,
)
    requires
        a.buffer.video.len() > 0,
        a.video_timescale > 0,
        a.buffer.muxer.audio_timescale > 0,
    ensures
        ({
            let s = a.finished(subtitle, dur_ts, d);
            let v = a.buffer.video_ticks as int;
            let rate = a.video_timescale as int;
            let sound = a.buffer.audio_ticks * rate / a.buffer.muxer.audio_timescale as int;
            let long = v >= 8 * rate || dur_ts >= 4 * rate;
            let ready = !a.audio_required || v == 0 || (a.buffer.audio_ticks > 0 && 10 * sound >= 9
                * v);
            &&& long && ready ==> {
                &&& s.buffer.out.len() == a.buffer.out.len() + 1
                &&& s.buffer.out.last().data == a.buffer.muxer.segment(
                    a.buffer.video,
                    a.buffer.audio,
                ).bytes
                &&& s.buffer.out.last().discontinuity == a.buffer.discontinuity
                &&& s.buffer.video.len() == 0 && s.buffer.audio.len() == 0
                &&& s.buffer.video_ticks == 0 && s.buffer.audio_ticks == 0
                &&& !s.buffer.discontinuity
            }
            &&& !(long && ready) ==> s.buffer.out == a.buffer.out && s.buffer.video
                == a.buffer.video && s.buffer.audio == a.buffer.audio && s.buffer.video_ticks
                == a.buffer.video_ticks
        }),
{
}

/// A decode time that goes back starts a new timeline: its first segment is placed at the start, and
/// what is muxed next is marked. One that goes on does not.
pub proof fn law_rewound_time_starts_anew(a: AggregateView, last: u64, now: u64)
    requires
        a.last_tfdt == Some(last),
    ensures
        now < last ==> {
            let s = a.before_segment(Some(now));
            &&& s.video_line.start(Some(now)) == 0
            &&& s.video_line.start(None) == 0
            &&& s.audio_line.start(None) == 0
            &&& s.buffer.discontinuity
            &&& s.buffer.video.len() == 0
        },
        last <= now ==> a.before_segment(Some(now)) == a,
        a.before_segment(None) == a,
{
}

} // verus!
