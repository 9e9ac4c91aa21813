//! Subtitle fragments, one behind the other.

use vstd::prelude::*;

use super::cue;
use super::cue::{OFFSET_LIMIT, SHORTEST};
use super::ttml;
use super::webvtt;
use crate::crypto::cenc::{Decryptor, DecryptorView};
use crate::mp4::boxes;
use crate::mp4::boxes::{BoxSpan, BoxView};
use crate::mp4::sample;
use crate::mp4::sample::{ParsedSegment, SampleView, SegmentView};
use crate::text;
use crate::time;
use crate::time::SECOND;

verus! {

/// `vttc`
pub const VTTC: [u8; 4] = [0x76, 0x74, 0x74, 0x63];

/// `payl`
pub const PAYL: [u8; 4] = [0x70, 0x61, 0x79, 0x6c];

/// The text that bytes encode, if they are UTF-8.
pub open spec fn text_of(bytes: Seq<u8>) -> Option<Seq<char>> {
    if vstd::utf8::valid_utf8(bytes) {
        Some(vstd::utf8::decode_utf8(bytes))
    } else {
        None
    }
}

/// A text behind its byte order marks and white space.
pub open spec fn content_of(s: Seq<char>) -> Seq<char> {
    text::trim_start(text::skip_char(s, '\u{feff}'))
}

/// The body of a text that is WebVTT or TTML.
pub open spec fn document_body(s: Seq<char>, offset: int, default_ns: int) -> Option<Seq<char>> {
    if "WEBVTT"@.is_prefix_of(content_of(s)) {
        Some(webvtt::vtt_body(s, offset, default_ns))
    } else if ttml::is_ttml(content_of(s)) {
        Some(ttml::ttml_body(s, offset, default_ns))
    } else {
        None
    }
}

/// Text with one more line, without the white space around it.
pub open spec fn with_line(t: Seq<char>, line: Seq<char>) -> Seq<char> {
    let l = text::trimmed(line);
    if l.len() == 0 {
        t
    } else if t.len() == 0 {
        l
    } else {
        t.push('\n') + l
    }
}

/// Text with the line that a payload box holds.
pub open spec fn with_payload(t: Seq<char>, payload: Seq<u8>) -> Seq<char> {
    match text_of(payload) {
        Some(line) => with_line(t, line),
        None => t,
    }
}

/// Text with the lines of the payload boxes among the first `n`.
pub open spec fn with_payloads(t: Seq<char>, b: Seq<BoxSpan>, n: int) -> Seq<char>
    decreases n,
{
    if n <= 0 {
        t
    } else {
        let u = with_payloads(t, b, n - 1);
        if b[n - 1].typ == PAYL@ {
            with_payload(u, b[n - 1].payload)
        } else {
            u
        }
    }
}

/// The lines of the cues among the first `n` boxes.
pub open spec fn cue_lines(b: Seq<BoxSpan>, n: int) -> Seq<char>
    decreases n,
{
    if n <= 0 {
        Seq::empty()
    } else {
        let t = cue_lines(b, n - 1);
        let x = b[n - 1];
        if x.typ == VTTC@ {
            let inner = boxes::boxes_from(x.payload, 0);
            with_payloads(t, inner, inner.len() as int)
        } else if x.typ == PAYL@ {
            with_payload(t, x.payload)
        } else {
            t
        }
    }
}

/// The text of a sample: that of its cue boxes, or all of it where there is no box.
pub open spec fn sample_text(d: Seq<u8>) -> Option<Seq<char>> {
    let b = boxes::boxes_from(d, 0);
    if b.len() == 0 {
        text_of(d)
    } else {
        let t = cue_lines(b, b.len() as int);
        if text::trimmed(t).len() > 0 {
            Some(t)
        } else {
            None
        }
    }
}

/// The body of a sample that starts at `offset`.
pub open spec fn sample_body(d: Seq<u8>, offset: int, duration_ns: int) -> Seq<char> {
    match sample_text(d) {
        Some(t) => match document_body(t, offset, duration_ns) {
            Some(b) => b,
            None => if content_of(t).len() == 0 {
                Seq::empty()
            } else {
                cue::plain_cue(
                    offset,
                    offset + cue::max_int(duration_ns, SHORTEST as int),
                    content_of(t),
                )
            },
        },
        None => match text_of(d) {
            Some(t) => match document_body(t, offset, duration_ns) {
                Some(b) => b,
                None => Seq::empty(),
            },
            None => Seq::empty(),
        },
    }
}

/// A body with another one behind it.
pub open spec fn with_body(t: Seq<char>, body: Seq<char>) -> Seq<char> {
    let b = text::trimmed(body);
    if b.len() == 0 {
        t
    } else if text::trimmed(t).len() == 0 {
        t + b + "\n"@
    } else {
        t.push('\n') + b + "\n"@
    }
}

/// Ticks in nanoseconds.
pub open spec fn ticks_ns(ticks: int, timescale: u32) -> int {
    ticks * SECOND / (if timescale == 0 {
        1
    } else {
        timescale as int
    })
}

/// The ticks of the first `n` samples.
pub open spec fn elapsed(samples: Seq<SampleView>, n: int) -> int
    decreases n,
{
    if n <= 0 {
        0
    } else {
        elapsed(samples, n - 1) + samples[n - 1].duration
    }
}

/// The bodies of the first `n` samples.
pub open spec fn samples_body(s: SegmentView, n: int, offset: int, timescale: u32) -> Seq<char>
    decreases n,
{
    if n <= 0 {
        Seq::empty()
    } else {
        let t = samples_body(s, n - 1, offset, timescale);
        let x = s.samples[n - 1];
        let to = if x.to < s.mdat.len() {
            x.to
        } else {
            s.mdat.len() as int
        };
        if x.from >= to {
            t
        } else {
            with_body(
                t,
                sample_body(
                    s.mdat.subrange(x.from, to),
                    offset + ticks_ns(elapsed(s.samples, n - 1), timescale),
                    ticks_ns(x.duration as int, timescale),
                ),
            )
        }
    }
}

/// A segment with its samples decrypted.
pub open spec fn opened(s: SegmentView, d: Option<DecryptorView>) -> SegmentView {
    match d {
        Some(x) => SegmentView {
            mdat: x.plain_segment(s.mdat, s.samples, s.samples.len() as int),
            ..s
        },
        None => s,
    }
}

/// What an optional decryptor holds.
pub open spec fn opt_decryptor(d: Option<&Decryptor>) -> Option<DecryptorView> {
    match d {
        Some(x) => Some(x@),
        None => None,
    }
}

/// The body of a fragment that starts at `offset`: of a whole document, or of the samples of an
/// MP4 segment.
pub open spec fn fragment_body(
    data: Seq<u8>,
    offset: int,
    default_ns: int,
    timescale: u32,
    d: Option<DecryptorView>,
    iv_size: Option<u8>,
) -> Seq<char> {
    let whole = match text_of(data) {
        Some(t) => document_body(t, offset, default_ns),
        None => None,
    };
    if data.len() == 0 {
        Seq::empty()
    } else if whole is Some {
        whole->0
    } else {
        match sample::segment_of(data, iv_size) {
            Some(s) => samples_body(opened(s, d), s.samples.len() as int, offset, timescale),
            None => Seq::empty(),
        }
    }
}

fn to_document_body(t: &str, offset: i128, default_ns: u64) -> (r: Option<String>)
    requires
        -OFFSET_LIMIT < offset < OFFSET_LIMIT,
    ensures
        text::opt_text(r) == document_body(t@, offset as int, default_ns as int),
{
    let c: Vec<char> = content(t);
    if text::starts_with(c.as_slice(), "WEBVTT") {
        return Some(webvtt::webvtt_to_body(t, offset, default_ns));
    }
    if ttml::looks_like_ttml(c.as_slice()) {
        return Some(ttml::ttml_to_body(t, offset, default_ns));
    }
    None
}

fn content(t: &str) -> (r: Vec<char>)
    ensures
        r@ == content_of(t@),
{
    text::trim_front(text::skip_leading(text::to_chars(t).as_slice(), '\u{feff}').as_slice())
}

/// Appends a line of text, without the white space around it.
pub fn append_text_line(target: &mut Vec<char>, line: &str)
    ensures
        final(target)@ == with_line(old(target)@, line@),
{
    let l: Vec<char> = text::trim(text::to_chars(line).as_slice());
    if l.len() == 0 {
        return ;
    }
    if target.len() > 0 {
        target.push('\n');
    }
    text::append(target, l.as_slice());
    assert(target@ =~= with_line(old(target)@, line@));
}

fn append_payload(target: &mut Vec<char>, payload: &[u8])
    ensures
        final(target)@ == with_payload(old(target)@, payload@),
{
    if let Some(line) = text::from_utf8(payload) {
        append_text_line(target, line.as_str());
    }
}

fn append_payloads(target: &mut Vec<char>, payload: &[u8])
    ensures
        ({
            let inner = boxes::boxes_from(payload@, 0);
            final(target)@ == with_payloads(old(target)@, inner, inner.len() as int)
        }),
{
    let ghost before = target@;
    let inner: Vec<BoxView> = boxes::iter_boxes(payload);
    let ghost all = boxes::boxes_from(payload@, 0);
    for i in 0..inner.len()
        invariant
            inner@.len() == all.len(),
            forall|k: int| 0 <= k < inner@.len() ==> (#[trigger] inner@[k]).shows(all[k]),
            target@ == with_payloads(before, all, i as int),
    {
        assert(inner@[i as int].shows(all[i as int]));
        if boxes::same_type(&inner[i].typ, &PAYL) {
            append_payload(target, inner[i].payload);
        }
    }
}

/// The text of a sample.
pub fn extract_wvtt_payload(d: &[u8]) -> (r: Option<String>)
    ensures
        text::opt_text(r) == sample_text(d@),
{
    let b: Vec<BoxView> = boxes::iter_boxes(d);
    let ghost all = boxes::boxes_from(d@, 0);
    if b.len() == 0 {
        return text::from_utf8(d);
    }
    let mut t: Vec<char> = Vec::new();
    assert(t@ =~= Seq::<char>::empty());
    for i in 0..b.len()
        invariant
            b@.len() == all.len(),
            forall|k: int| 0 <= k < b@.len() ==> (#[trigger] b@[k]).shows(all[k]),
            t@ == cue_lines(all, i as int),
    {
        assert(b@[i as int].shows(all[i as int]));
        if boxes::same_type(&b[i].typ, &VTTC) {
            append_payloads(&mut t, b[i].payload);
        } else if boxes::same_type(&b[i].typ, &PAYL) {
            append_payload(&mut t, b[i].payload);
        }
    }
    if text::trim(t.as_slice()).len() > 0 {
        Some(text::from_chars(t.as_slice()))
    } else {
        None
    }
}

/// The body of a sample that starts at `offset`.
pub fn sample_payload_to_body(d: &[u8], offset: i128, duration_ns: u64) -> (r: String)
    requires
        -OFFSET_LIMIT < offset < OFFSET_LIMIT,
    ensures
        r@ == sample_body(d@, offset as int, duration_ns as int),
{
    if let Some(t) = extract_wvtt_payload(d) {
        if let Some(b) = to_document_body(t.as_str(), offset, duration_ns) {
            return b;
        }
        let c: Vec<char> = content(t.as_str());
        if c.len() == 0 {
            return String::new();
        }
        let shown: i128 = if duration_ns as i128 >= SHORTEST {
            duration_ns as i128
        } else {
            SHORTEST
        };
        return cue::cue_body(offset, offset + shown, c.as_slice());
    }
    if let Some(t) = text::from_utf8(d) {
        if let Some(b) = to_document_body(t.as_str(), offset, duration_ns) {
            return b;
        }
    }
    String::new()
}

/// Appends a body.
pub fn append_body(target: &mut String, body: &str)
    ensures
        final(target)@ == with_body(old(target)@, body@),
{
    let b: Vec<char> = text::trim(text::to_chars(body).as_slice());
    if b.len() == 0 {
        return ;
    }
    if text::trim(text::to_chars(target.as_str()).as_slice()).len() > 0 {
        target.push('\n');
    }
    text::push_str(target, text::from_chars(b.as_slice()).as_str());
    text::push_str(target, "\n");
    assert(target@ =~= with_body(old(target)@, body@));
}

fn to_ns(ticks: u128, timescale: u32) -> (r: u128)
    requires
        ticks < 0x1_0000_0000_0000_0000_0000_0000,
    ensures
        r == ticks_ns(ticks as int, timescale),
        r <= ticks * SECOND,
{
    let scale: u128 = if timescale == 0 {
        1
    } else {
        timescale as u128
    };
    let product: u128 = ticks * SECOND as u128;
    assert(product as int / scale as int <= product) by (nonlinear_arith)
        requires
            scale >= 1,
            product >= 0,
    ;
    product / scale
}

fn samples_to_body(s: &ParsedSegment, offset: i64, timescale: u32) -> (r: String)
    ensures
        r@ == samples_body(s@, s@.samples.len() as int, offset as int, timescale),
{
    let ghost v = s@;
    let mut out: String = String::new();
    assert(out@ =~= Seq::<char>::empty());
    let mut ticks: u128 = 0;
    let n: usize = s.samples.len();
    for i in 0..n
        invariant
            v == s@,
            n == s.samples@.len(),
            ticks == elapsed(v.samples, i as int),
            ticks <= i * 0xffff_ffff,
            out@ == samples_body(v, i as int, offset as int, timescale),
    {
        assert(v.samples[i as int] == s.samples@[i as int]@);
        let a: usize = s.samples[i].data_range.0;
        let b: usize = if s.samples[i].data_range.1 < s.mdat.len() {
            s.samples[i].data_range.1
        } else {
            s.mdat.len()
        };
        let duration: u32 = s.samples[i].duration;
        assert(ticks < 0x1_0000_0000_0000_0000_0000_0000);
        if a < b {
            let d: &[u8] = vstd::slice::slice_subrange(s.mdat.as_slice(), a, b);
            let local: u128 = to_ns(ticks, timescale);
            let shown: u128 = to_ns(duration as u128, timescale);
            let body: String = sample_payload_to_body(
                d,
                offset as i128 + local as i128,
                shown as u64,
            );
            append_body(&mut out, body.as_str());
        }
        ticks = ticks + duration as u128;
    }
    out
}

/// The body of a fragment that starts at `offset_ns`. Its own times are in ticks of `timescale`.
pub fn fragment_to_vtt_body(
    data: &[u8],
    offset_ns: i64,
    default_duration_ns: i64,
    timescale: u32,
    decryptor: Option<&Decryptor>,
    default_iv_size: Option<u8>,
) -> (r: String)
    ensures
        r@ == fragment_body(
            data@,
            offset_ns as int,
            time::not_below_zero(default_duration_ns) as int,
            timescale,
            opt_decryptor(decryptor),
            default_iv_size,
        ),
{
    if data.len() == 0 {
        return String::new();
    }
    if let Some(t) = text::from_utf8(data) {
        if let Some(b) = to_document_body(
            t.as_str(),
            offset_ns as i128,
            time::at_least_zero(default_duration_ns) as u64,
        ) {
            return b;
        }
    }
    let mut parsed: ParsedSegment = match sample::parse_media_segment_with_default_iv_size(
        data,
        default_iv_size,
    ) {
        Some(p) => p,
        None => return String::new(),
    };
    let ghost was = parsed@;
    if let Some(d) = decryptor {
        d.decrypt_segment(&mut parsed.mdat, parsed.samples.as_slice());
    }
    assert(parsed@ == opened(was, opt_decryptor(decryptor)));
    samples_to_body(&parsed, offset_ns, timescale)
}

/// The bodies of the fragments that make one segment.
pub struct SubtitleAccumulator {
    body: String,
    duration_ns: i64,
}

/// What a value of [`SubtitleAccumulator`] holds.
pub struct AccumulatorView {
    pub body: Seq<char>,
    pub duration_ns: i64,
}

/// The time that fragments have taken, with another one behind them.
pub open spec fn with_duration(taken: i64, duration_ns: i64) -> i64 {
    time::duration_sum(taken, time::not_below_zero(duration_ns))
}

impl View for SubtitleAccumulator {
    type V = AccumulatorView;

    closed spec fn view(&self) -> AccumulatorView {
        AccumulatorView { body: self.body@, duration_ns: self.duration_ns }
    }
}

impl SubtitleAccumulator {
    /// Nothing yet.
    pub fn new() -> (r: Self)
        ensures
            r@ == (AccumulatorView { body: Seq::empty(), duration_ns: 0 }),
    {
        let r = SubtitleAccumulator { body: String::new(), duration_ns: 0 };
        assert(r.body@ =~= Seq::<char>::empty());
        r
    }

    /// Time without subtitles.
    pub fn append_empty(&mut self, duration_ns: i64)
        ensures
            final(self)@ == (AccumulatorView {
                duration_ns: with_duration(old(self)@.duration_ns, duration_ns),
                ..old(self)@
            }),
    {
        self.duration_ns = time::add_durations(self.duration_ns, time::at_least_zero(duration_ns));
    }

    /// A fragment behind the ones so far.
    pub fn append_fragment(
        &mut self,
        data: &[u8],
        duration_ns: i64,
        timescale: u32,
        decryptor: Option<&Decryptor>,
        default_iv_size: Option<u8>,
    )
        ensures
            final(self)@ == (AccumulatorView {
                body: with_body(
                    old(self)@.body,
                    fragment_body(
                        data@,
                        old(self)@.duration_ns as int,
                        time::not_below_zero(duration_ns) as int,
                        timescale,
                        opt_decryptor(decryptor),
                        default_iv_size,
                    ),
                ),
                duration_ns: with_duration(old(self)@.duration_ns, duration_ns),
            }),
    {
        let cues: String = fragment_to_vtt_body(
            data,
            self.duration_ns,
            duration_ns,
            timescale,
            decryptor,
            default_iv_size,
        );
        append_body(&mut self.body, cues.as_str());
        self.append_empty(duration_ns);
    }

    /// Hands out the body and starts anew.
    pub fn take_body(&mut self) -> (r: String)
        ensures
            r@ == old(self)@.body,
            final(self)@ == (AccumulatorView { body: Seq::empty(), duration_ns: 0 }),
    {
        self.duration_ns = 0;
        let mut out: String = String::new();
        assert(out@ =~= Seq::<char>::empty());
        std::mem::swap(&mut out, &mut self.body);
        out
    }

    /// Starts anew.
    pub fn clear(&mut self)
        ensures
            final(self)@ == (AccumulatorView { body: Seq::empty(), duration_ns: 0 }),
    {
        self.body = String::new();
        self.duration_ns = 0;
        assert(self.body@ =~= Seq::<char>::empty());
    }
}

impl Default for SubtitleAccumulator {
    fn default() -> (r: Self)
        ensures
            r@ == (AccumulatorView { body: Seq::empty(), duration_ns: 0 }),
    {
        SubtitleAccumulator::new()
    }
}

} // verus!
