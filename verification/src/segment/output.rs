//! The outputs of a task: a rolling list of transport stream segments, and one of subtitles.

use vstd::prelude::*;

use super::playlist;
use super::state;
use super::state::{Piece, Rolling};
use crate::text;
use crate::wire;

verus! {

/// A transport stream segment.
#[derive(Debug, Clone)]
pub struct TsSegment {
    pub seq: u64,
    pub duration_ns: i64,
    pub data: Vec<u8>,
    pub discontinuity: bool,
}

impl View for TsSegment {
    type V = Piece<Seq<u8>>;

    open spec fn view(&self) -> Piece<Seq<u8>> {
        Piece {
            seq: self.seq,
            duration_ns: self.duration_ns,
            payload: self.data@,
            discontinuity: self.discontinuity,
        }
    }
}

/// A subtitle segment.
#[derive(Debug, Clone)]
pub struct SubtitleSegment {
    pub seq: u64,
    pub duration_ns: i64,
    pub body: String,
    pub discontinuity: bool,
}

impl View for SubtitleSegment {
    type V = Piece<Seq<char>>;

    open spec fn view(&self) -> Piece<Seq<char>> {
        Piece {
            seq: self.seq,
            duration_ns: self.duration_ns,
            payload: self.body@,
            discontinuity: self.discontinuity,
        }
    }
}

/// The subtitles that a master playlist names.
#[derive(Clone, Copy)]
pub struct SubtitleRendition<'a> {
    pub name: &'a str,
    pub lang: &'a str,
}

/// What a list of segments holds.
pub open spec fn ts_views(v: Seq<TsSegment>) -> Seq<Piece<Seq<u8>>> {
    v.map_values(|s: TsSegment| s@)
}

/// What a list of subtitle segments holds.
pub open spec fn subtitle_views(v: Seq<SubtitleSegment>) -> Seq<Piece<Seq<char>>> {
    v.map_values(|s: SubtitleSegment| s@)
}

/// The media output of a task.
pub struct HlsOutput {
    segments: Vec<TsSegment>,
    next_seq: u64,
    finished: bool,
    window: usize,
    target_duration: u64,
    publish_delay_segments: usize,
    codecs: String,
    video_range: String,
    is_live: bool,
    base_url: String,
}

impl View for HlsOutput {
    type V = Rolling<Seq<u8>>;

    closed spec fn view(&self) -> Rolling<Seq<u8>> {
        Rolling {
            segments: ts_views(self.segments@),
            next_seq: self.next_seq,
            finished: self.finished,
            window: self.window as nat,
            target_duration: self.target_duration,
            delay: self.publish_delay_segments as nat,
            is_live: self.is_live,
        }
    }
}

/// The stream that a master playlist names.
pub open spec fn stream_inf(
    bandwidth: u64,
    codecs: Seq<char>,
    width: u32,
    height: u32,
    video_range: Seq<char>,
) -> Seq<char> {
    "#EXT-X-STREAM-INF:BANDWIDTH="@ + text::decimal(bandwidth as int) + ",CODECS=\""@ + codecs
        + "\",RESOLUTION="@ + text::decimal(width as int) + "x"@ + text::decimal(height as int)
        + ",VIDEO-RANGE="@ + video_range
}

/// The subtitles that a master playlist names.
pub open spec fn subtitles_media(name: Seq<char>, lang: Seq<char>, prefix: Seq<char>) -> Seq<
    char,
> {
    "#EXT-X-MEDIA:TYPE=SUBTITLES,GROUP-ID=\"subs\",NAME=\""@ + playlist::quoted(name)
        + "\",DEFAULT=NO,AUTOSELECT=YES,FORCED=NO,LANGUAGE=\""@ + playlist::quoted(lang)
        + "\",URI=\""@ + prefix + "/xyz\"\n"@
}

fn push_stream_inf(
    out: &mut String,
    bandwidth: u64,
    codecs: &str,
    width: u32,
    height: u32,
    video_range: &str,
)
    ensures
        final(out)@ == old(out)@ + stream_inf(bandwidth, codecs@, width, height, video_range@),
{
    text::push_str(out, "#EXT-X-STREAM-INF:BANDWIDTH=");
    text::push_decimal(out, bandwidth);
    text::push_str(out, ",CODECS=\"");
    text::push_str(out, codecs);
    text::push_str(out, "\",RESOLUTION=");
    text::push_decimal(out, width as u64);
    text::push_str(out, "x");
    text::push_decimal(out, height as u64);
    text::push_str(out, ",VIDEO-RANGE=");
    text::push_str(out, video_range);
    assert(out@ =~= old(out)@ + stream_inf(bandwidth, codecs@, width, height, video_range@));
}

impl HlsOutput {
    pub closed spec fn codecs(&self) -> Seq<char> {
        self.codecs@
    }

    pub closed spec fn video_range(&self) -> Seq<char> {
        self.video_range@
    }

    pub closed spec fn base_url(&self) -> Seq<char> {
        self.base_url@
    }

    /// Whether nothing but the list of segments differs.
    pub open spec fn same_labels(&self, other: &HlsOutput) -> bool {
        self.codecs() == other.codecs() && self.video_range() == other.video_range()
            && self.base_url() == other.base_url()
    }

    /// An output with no segment. A window of 0 publishes all and drops none.
    pub fn new(
        window: usize,
        target_duration: u64,
        codecs: String,
        video_range: String,
        is_live: bool,
        base_url: String,
        publish_delay_segments: usize,
    ) -> (r: Self)
        ensures
            r@ == Rolling::<Seq<u8>>::start(
                window as nat,
                target_duration,
                is_live,
                publish_delay_segments as nat,
            ),
            r@.wf(),
            r.codecs() == codecs@,
            r.video_range() == video_range@,
            r.base_url() == base_url@,
    {
        let r = HlsOutput {
            segments: Vec::new(),
            next_seq: 0,
            finished: false,
            window,
            target_duration,
            publish_delay_segments: playlist::held_back(is_live, publish_delay_segments),
            codecs,
            video_range,
            is_live,
            base_url,
        };
        assert(ts_views(r.segments@) =~= Seq::<Piece<Seq<u8>>>::empty());
        r
    }

    /// Sets how many of the newest segments are held back.
    pub fn set_publish_delay_segments(&mut self, delay: usize)
        ensures
            final(self)@ == old(self)@.with_delay(delay as nat),
            final(self).same_labels(old(self)),
            old(self)@.wf() ==> final(self)@.wf(),
    {
        self.publish_delay_segments = playlist::held_back(self.is_live, delay);
    }

    /// Appends a segment and gives out its number.
    pub fn push_segment(&mut self, duration_ns: i64, data: Vec<u8>) -> (r: u64)
        ensures
            r == old(self)@.next_seq,
            final(self)@ == old(self)@.with_segment(duration_ns, data@, false),
            final(self).same_labels(old(self)),
            old(self)@.wf() && old(self)@.next_seq < u64::MAX ==> final(self)@.wf(),
    {
        self.push_segment_inner(duration_ns, data, false)
    }

    /// Appends a segment at which decoding starts anew, and gives out its number.
    pub fn push_segment_discontinuity(&mut self, duration_ns: i64, data: Vec<u8>) -> (r: u64)
        ensures
            r == old(self)@.next_seq,
            final(self)@ == old(self)@.with_segment(duration_ns, data@, true),
            final(self).same_labels(old(self)),
            old(self)@.wf() && old(self)@.next_seq < u64::MAX ==> final(self)@.wf(),
    {
        self.push_segment_inner(duration_ns, data, true)
    }

    fn push_segment_inner(&mut self, duration_ns: i64, data: Vec<u8>, discontinuity: bool) -> (r:
        u64)
        ensures
            r == old(self)@.next_seq,
            final(self)@ == old(self)@.with_segment(duration_ns, data@, discontinuity),
            final(self).same_labels(old(self)),
            old(self)@.wf() && old(self)@.next_seq < u64::MAX ==> final(self)@.wf(),
    {
        let ghost was = self@;
        let seq: u64 = self.next_seq;
        self.next_seq = if seq == u64::MAX {
            0
        } else {
            seq + 1
        };
        let piece = TsSegment { seq, duration_ns, data, discontinuity };
        self.segments.push(piece);
        let ghost all = ts_views(self.segments@);
        assert(all =~= was.segments.push(piece@));
        self.target_duration = playlist::greater(
            self.target_duration,
            playlist::seconds_up(duration_ns),
        );
        let n: usize = playlist::overflow(
            self.segments.len(),
            self.window,
            self.publish_delay_segments,
        );
        let kept: Vec<TsSegment> = self.segments.split_off(n);
        self.segments = kept;
        proof {
            assert(ts_views(self.segments@) =~= was.kept(all));
            if was.wf() && was.next_seq < u64::MAX {
                state::law_push_keeps_order(was, duration_ns, data@, discontinuity);
            }
        }
        seq
    }

    /// Forgets the segments of a live output, so that a late start does not publish old ones.
    /// Numbers go on where they were.
    pub fn clear_live_segments_keep_sequence(&mut self)
        ensures
            final(self)@ == old(self)@.cleared(),
            final(self).same_labels(old(self)),
            old(self)@.wf() ==> final(self)@.wf(),
    {
        if !self.is_live {
            return ;
        }
        self.segments = Vec::new();
        self.finished = false;
        assert(ts_views(self.segments@) =~= Seq::<Piece<Seq<u8>>>::empty());
    }

    /// Marks the end.
    pub fn finish(&mut self)
        ensures
            final(self)@ == old(self)@.ended(),
            final(self).same_labels(old(self)),
            old(self)@.wf() ==> final(self)@.wf(),
    {
        self.finished = true;
    }

    /// The bytes of the segment with a number.
    pub fn get_segment(&self, seq: u64) -> (r: Option<Vec<u8>>)
        ensures
            match state::find_piece(self@.segments, seq, 0) {
                Some(p) => r matches Some(d) && d@ == p.payload,
                None => r is None,
            },
    {
        let n: usize = self.segments.len();
        let ghost all = self@.segments;
        let mut i: usize = 0;
        while i < n
            invariant
                n == self.segments@.len(),
                all == ts_views(self.segments@),
                state::find_piece(all, seq, 0) == state::find_piece(all, seq, i as int),
            decreases n - i,
        {
            assert(all[i as int] == self.segments@[i as int]@);
            if self.segments[i].seq == seq {
                return Some(wire::copy(self.segments[i].data.as_slice()));
            }
            i = i + 1;
        }
        None
    }

    /// How many segments are held.
    pub fn segment_count(&self) -> (r: usize)
        ensures
            r == self@.segments.len(),
    {
        self.segments.len()
    }

    /// How many segments have been pushed.
    pub fn total_produced(&self) -> (r: u64)
        ensures
            r == self@.next_seq,
    {
        self.next_seq
    }

    /// The media playlist, with segments under `prefix`.
    pub fn media_playlist_absolute(&self, prefix: &str) -> (r: String)
        ensures
            r@ == self@.playlist(prefix@, "/picture-"@, ".jpeg\n"@),
    {
        let ghost o = self@;
        let (start, end): (usize, usize) = playlist::published(
            self.segments.len(),
            self.window,
            self.publish_delay_segments,
        );
        assert(start == o.published_start() && end == o.published_end());
        assert(start < o.segments.len() ==> o.segments[start as int]
            == self.segments@[start as int]@);
        let media_sequence: u64 = if start < self.segments.len() {
            self.segments[start].seq
        } else {
            self.next_seq
        };
        let mut s: String = String::new();
        playlist::push_header(&mut s, self.target_duration, media_sequence, self.window > 0);
        let ghost header = s@;
        let ghost all = state::entries(
            o.segments,
            start as int,
            end as int,
            prefix@,
            "/picture-"@,
            ".jpeg\n"@,
        );
        assert(header + all =~= s@ + all);
        let mut i: usize = start;
        while i < end
            invariant
                start <= i <= end <= self.segments@.len(),
                o.segments == ts_views(self.segments@),
                s@ + state::entries(
                    o.segments,
                    i as int,
                    end as int,
                    prefix@,
                    "/picture-"@,
                    ".jpeg\n"@,
                ) == header + all,
            decreases end - i,
        {
            let ghost before = s@;
            let ghost rest = state::entries(
                o.segments,
                i + 1,
                end as int,
                prefix@,
                "/picture-"@,
                ".jpeg\n"@,
            );
            let ghost p = o.segments[i as int];
            assert(p == self.segments@[i as int]@);
            playlist::push_entry(
                &mut s,
                self.segments[i].seq,
                self.segments[i].duration_ns,
                self.segments[i].discontinuity,
                prefix,
                "/picture-",
                ".jpeg\n",
            );
            assert(s@ + rest =~= before + (state::entry(p, prefix@, "/picture-"@, ".jpeg\n"@)
                + rest));
            i = i + 1;
        }
        assert(s@ =~= header + all);
        if self.finished && self.window == 0 {
            text::push_str(&mut s, "#EXT-X-ENDLIST\n");
        }
        assert(s@ =~= o.playlist(prefix@, "/picture-"@, ".jpeg\n"@));
        s
    }

    /// The media playlist, with segments under the path of the task.
    pub fn media_playlist(&self) -> (r: String)
        ensures
            r@ == self@.playlist(self.base_url(), "/picture-"@, ".jpeg\n"@),
    {
        self.media_playlist_absolute(self.base_url.as_str())
    }

    /// The master playlist, with the media playlist under the path of the task.
    pub fn master_playlist(&self, bandwidth: u64, width: u32, height: u32) -> (r: String)
        ensures
            r@ == "#EXTM3U\n#EXT-X-VERSION:3\n"@ + stream_inf(
                bandwidth,
                self.codecs(),
                width,
                height,
                self.video_range(),
            ) + "\n"@ + self.base_url() + "/api\n"@,
    {
        let mut out: String = String::new();
        text::push_str(&mut out, "#EXTM3U\n#EXT-X-VERSION:3\n");
        push_stream_inf(
            &mut out,
            bandwidth,
            self.codecs.as_str(),
            width,
            height,
            self.video_range.as_str(),
        );
        text::push_str(&mut out, "\n");
        text::push_str(&mut out, self.base_url.as_str());
        text::push_str(&mut out, "/api\n");
        assert(out@ =~= "#EXTM3U\n#EXT-X-VERSION:3\n"@ + stream_inf(
            bandwidth,
            self.codecs(),
            width,
            height,
            self.video_range(),
        ) + "\n"@ + self.base_url() + "/api\n"@);
        out
    }

    /// The master playlist, with its parts under `prefix`.
    pub fn master_playlist_absolute(
        &self,
        prefix: &str,
        bandwidth: u64,
        width: u32,
        height: u32,
        subtitles: Option<SubtitleRendition<'_>>,
    ) -> (r: String)
        ensures
            r@ == "#EXTM3U\n#EXT-X-VERSION:3\n"@ + (match subtitles {
                Some(sub) => subtitles_media(sub.name@, sub.lang@, prefix@),
                None => Seq::empty(),
            }) + stream_inf(bandwidth, self.codecs(), width, height, self.video_range()) + (
            if subtitles is Some {
                ",SUBTITLES=\"subs\""@
            } else {
                Seq::empty()
            }) + "\n"@ + prefix@ + "/api\n"@,
    {
        let mut out: String = String::new();
        text::push_str(&mut out, "#EXTM3U\n#EXT-X-VERSION:3\n");
        let ghost mut subs: Seq<char> = Seq::empty();
        if let Some(sub) = subtitles {
            proof {
                subs = subtitles_media(sub.name@, sub.lang@, prefix@);
            }
            text::push_str(
                &mut out,
                "#EXT-X-MEDIA:TYPE=SUBTITLES,GROUP-ID=\"subs\",NAME=\"",
            );
            text::push_str(&mut out, playlist::hls_quote(sub.name).as_str());
            text::push_str(
                &mut out,
                "\",DEFAULT=NO,AUTOSELECT=YES,FORCED=NO,LANGUAGE=\"",
            );
            text::push_str(&mut out, playlist::hls_quote(sub.lang).as_str());
            text::push_str(&mut out, "\",URI=\"");
            text::push_str(&mut out, prefix);
            text::push_str(&mut out, "/xyz\"\n");
        }
        assert(out@ =~= "#EXTM3U\n#EXT-X-VERSION:3\n"@ + subs);
        push_stream_inf(
            &mut out,
            bandwidth,
            self.codecs.as_str(),
            width,
            height,
            self.video_range.as_str(),
        );
        let ghost mut tail: Seq<char> = Seq::empty();
        if subtitles.is_some() {
            proof {
                tail = ",SUBTITLES=\"subs\""@;
            }
            text::push_str(&mut out, ",SUBTITLES=\"subs\"");
        }
        text::push_str(&mut out, "\n");
        text::push_str(&mut out, prefix);
        text::push_str(&mut out, "/api\n");
        assert(out@ =~= "#EXTM3U\n#EXT-X-VERSION:3\n"@ + subs + stream_inf(
            bandwidth,
            self.codecs(),
            width,
            height,
            self.video_range(),
        ) + tail + "\n"@ + prefix@ + "/api\n"@);
        out
    }
}

/// The subtitle output of a task.
pub struct SubtitleOutput {
    segments: Vec<SubtitleSegment>,
    next_seq: u64,
    finished: bool,
    window: usize,
    target_duration: u64,
    publish_delay_segments: usize,
    is_live: bool,
}

impl View for SubtitleOutput {
    type V = Rolling<Seq<char>>;

    closed spec fn view(&self) -> Rolling<Seq<char>> {
        Rolling {
            segments: subtitle_views(self.segments@),
            next_seq: self.next_seq,
            finished: self.finished,
            window: self.window as nat,
            target_duration: self.target_duration,
            delay: self.publish_delay_segments as nat,
            is_live: self.is_live,
        }
    }
}

impl SubtitleOutput {
    /// An output with no segment.
    pub fn new(
        window: usize,
        target_duration: u64,
        is_live: bool,
        publish_delay_segments: usize,
    ) -> (r: Self)
        ensures
            r@ == Rolling::<Seq<char>>::start(
                window as nat,
                target_duration,
                is_live,
                publish_delay_segments as nat,
            ),
            r@.wf(),
    {
        let r = SubtitleOutput {
            segments: Vec::new(),
            next_seq: 0,
            finished: false,
            window,
            target_duration,
            publish_delay_segments: playlist::held_back(is_live, publish_delay_segments),
            is_live,
        };
        assert(subtitle_views(r.segments@) =~= Seq::<Piece<Seq<char>>>::empty());
        r
    }

    /// Sets how many of the newest segments are held back.
    pub fn set_publish_delay_segments(&mut self, delay: usize)
        ensures
            final(self)@ == old(self)@.with_delay(delay as nat),
            old(self)@.wf() ==> final(self)@.wf(),
    {
        self.publish_delay_segments = playlist::held_back(self.is_live, delay);
    }

    /// Appends a segment and gives out its number.
    pub fn push_segment(&mut self, duration_ns: i64, body: String) -> (r: u64)
        ensures
            r == old(self)@.next_seq,
            final(self)@ == old(self)@.with_segment(duration_ns, body@, false),
            old(self)@.wf() && old(self)@.next_seq < u64::MAX ==> final(self)@.wf(),
    {
        self.push_segment_inner(duration_ns, body, false)
    }

    /// Appends a segment at which the video starts anew, and gives out its number.
    pub fn push_segment_discontinuity(&mut self, duration_ns: i64, body: String) -> (r: u64)
        ensures
            r == old(self)@.next_seq,
            final(self)@ == old(self)@.with_segment(duration_ns, body@, true),
            old(self)@.wf() && old(self)@.next_seq < u64::MAX ==> final(self)@.wf(),
    {
        self.push_segment_inner(duration_ns, body, true)
    }

    fn push_segment_inner(&mut self, duration_ns: i64, body: String, discontinuity: bool) -> (r:
        u64)
        ensures
            r == old(self)@.next_seq,
            final(self)@ == old(self)@.with_segment(duration_ns, body@, discontinuity),
            old(self)@.wf() && old(self)@.next_seq < u64::MAX ==> final(self)@.wf(),
    {
        let ghost was = self@;
        let seq: u64 = self.next_seq;
        self.next_seq = if seq == u64::MAX {
            0
        } else {
            seq + 1
        };
        let piece = SubtitleSegment { seq, duration_ns, body, discontinuity };
        self.segments.push(piece);
        let ghost all = subtitle_views(self.segments@);
        assert(all =~= was.segments.push(piece@));
        self.target_duration = playlist::greater(
            self.target_duration,
            playlist::seconds_up(duration_ns),
        );
        let n: usize = playlist::overflow(
            self.segments.len(),
            self.window,
            self.publish_delay_segments,
        );
        let kept: Vec<SubtitleSegment> = self.segments.split_off(n);
        self.segments = kept;
        proof {
            assert(subtitle_views(self.segments@) =~= was.kept(all));
            if was.wf() && was.next_seq < u64::MAX {
                state::law_push_keeps_order(was, duration_ns, body@, discontinuity);
            }
        }
        seq
    }

    /// The subtitle playlist, with segments under `prefix`.
    pub fn playlist_absolute(&self, prefix: &str) -> (r: String)
        ensures
            r@ == self@.playlist(prefix@, "/xyz-"@, ".txt\n"@),
    {
        let ghost o = self@;
        let (start, end): (usize, usize) = playlist::published(
            self.segments.len(),
            self.window,
            self.publish_delay_segments,
        );
        assert(start == o.published_start() && end == o.published_end());
        assert(start < o.segments.len() ==> o.segments[start as int]
            == self.segments@[start as int]@);
        let media_sequence: u64 = if start < self.segments.len() {
            self.segments[start].seq
        } else {
            self.next_seq
        };
        let mut s: String = String::new();
        playlist::push_header(&mut s, self.target_duration, media_sequence, self.window > 0);
        let ghost header = s@;
        let ghost all = state::entries(
            o.segments,
            start as int,
            end as int,
            prefix@,
            "/xyz-"@,
            ".txt\n"@,
        );
        assert(header + all =~= s@ + all);
        let mut i: usize = start;
        while i < end
            invariant
                start <= i <= end <= self.segments@.len(),
                o.segments == subtitle_views(self.segments@),
                s@ + state::entries(
                    o.segments,
                    i as int,
                    end as int,
                    prefix@,
                    "/xyz-"@,
                    ".txt\n"@,
                ) == header + all,
            decreases end - i,
        {
            let ghost before = s@;
            let ghost rest = state::entries(
                o.segments,
                i + 1,
                end as int,
                prefix@,
                "/xyz-"@,
                ".txt\n"@,
            );
            let ghost p = o.segments[i as int];
            assert(p == self.segments@[i as int]@);
            playlist::push_entry(
                &mut s,
                self.segments[i].seq,
                self.segments[i].duration_ns,
                self.segments[i].discontinuity,
                prefix,
                "/xyz-",
                ".txt\n",
            );
            assert(s@ + rest =~= before + (state::entry(p, prefix@, "/xyz-"@, ".txt\n"@) + rest));
            i = i + 1;
        }
        assert(s@ =~= header + all);
        if self.finished && self.window == 0 {
            text::push_str(&mut s, "#EXT-X-ENDLIST\n");
        }
        assert(s@ =~= o.playlist(prefix@, "/xyz-"@, ".txt\n"@));
        s
    }

    /// The text of the segment with a number.
    pub fn get_segment(&self, seq: u64) -> (r: Option<String>)
        ensures
            match state::find_piece(self@.segments, seq, 0) {
                Some(p) => r matches Some(d) && d@ == playlist::webvtt(p.payload),
                None => r is None,
            },
    {
        let n: usize = self.segments.len();
        let ghost all = self@.segments;
        let mut i: usize = 0;
        while i < n
            invariant
                n == self.segments@.len(),
                all == subtitle_views(self.segments@),
                state::find_piece(all, seq, 0) == state::find_piece(all, seq, i as int),
            decreases n - i,
        {
            assert(all[i as int] == self.segments@[i as int]@);
            if self.segments[i].seq == seq {
                return Some(playlist::format_webvtt_segment(self.segments[i].body.as_str()));
            }
            i = i + 1;
        }
        None
    }

    /// How many segments are held.
    pub fn segment_count(&self) -> (r: usize)
        ensures
            r == self@.segments.len(),
    {
        self.segments.len()
    }

    /// Forgets the segments of a live output. Numbers go on where they were.
    pub fn clear_live_segments_keep_sequence(&mut self)
        ensures
            final(self)@ == old(self)@.cleared(),
            old(self)@.wf() ==> final(self)@.wf(),
    {
        if !self.is_live {
            return ;
        }
        self.segments = Vec::new();
        self.finished = false;
        assert(subtitle_views(self.segments@) =~= Seq::<Piece<Seq<char>>>::empty());
    }

    /// Marks the end.
    pub fn finish(&mut self)
        ensures
            final(self)@ == old(self)@.ended(),
            old(self)@.wf() ==> final(self)@.wf(),
    {
        self.finished = true;
    }
}

} // verus!
