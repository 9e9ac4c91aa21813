//! HLS sources of TS segments: they are decrypted, put together and handed on as they are.

use vstd::prelude::*;

use super::buffer;
use super::buffer::{Published, PublishedView};
use super::live_tuning::{AGGREGATE_TARGET_S, SHORT_SEG_THRESHOLD_S};
use super::mpd_keys;
use super::mpd_session;
use crate::crypto::cenc;
use crate::crypto::hls;
use crate::crypto::hls::CbcError;
use crate::hls::parser::{HlsSegmentView, KeyView};
use crate::hls::{HlsSegment, HlsSegmentKey};
use crate::mp4::tenc;
use crate::subtitle::fragment;
use crate::subtitle::fragment::AccumulatorView;
use crate::subtitle::SubtitleAccumulator;
use crate::text;
use crate::time;
use crate::time::SECOND;
use crate::wire;

verus! {

/// The key of the first line from `i` on that holds one.
pub open spec fn first_key(lines: Seq<Seq<char>>, i: int) -> Option<Seq<u8>>
    decreases lines.len() - i,
{
    if i < 0 || i >= lines.len() {
        None
    } else if cenc::line_key(lines[i]) is Some {
        cenc::line_key(lines[i])
    } else {
        first_key(lines, i + 1)
    }
}

/// The first key of a text.
pub fn first_configured_key(s: &str) -> (r: Option<[u8; 16]>)
    ensures
        tenc::bytes_of(r) == first_key(text::lines_of(s@), 0),
{
    let lines: Vec<Vec<char>> = text::split_lines(s);
    let ghost all = text::lines_of(s@);
    let n: usize = lines.len();
    assert(text::char_views(lines@).len() == n);
    let mut i: usize = 0;
    while i < n
        invariant
            n == lines@.len(),
            i <= n,
            all == text::char_views(lines@),
            all == text::lines_of(s@),
            first_key(all, 0) == first_key(all, i as int),
        decreases n - i,
    {
        assert(all[i as int] == lines@[i as int]@);
        if let Some(k) = cenc::key_of_chars(lines[i].as_slice()) {
            return Some(k);
        }
        i = i + 1;
    }
    None
}

/// The key that the address of a key answers with: the 16 bytes themselves, or a text with a key
/// in it.
pub open spec fn key_in_body(body: Seq<u8>) -> Option<Seq<u8>> {
    if body.len() == 16 {
        Some(body)
    } else {
        match fragment::text_of(body) {
            Some(t) => first_key(text::lines_of(t), 0),
            None => None,
        }
    }
}

/// The key that the address of a key answers with.
pub fn parse_key_body(body: &[u8]) -> (r: Option<[u8; 16]>)
    ensures
        tenc::bytes_of(r) == key_in_body(body@),
{
    if body.len() == 16 {
        let k: [u8; 16] = tenc::block_at(body, 0);
        assert(k@ =~= body@);
        return Some(k);
    }
    match text::from_utf8(body) {
        Some(t) => first_configured_key(t.as_str()),
        None => None,
    }
}

/// What tells the key of one segment from that of another.
pub open spec fn marker_of(key: KeyView) -> Option<Seq<char>> {
    match key {
        KeyView::Clear => None,
        KeyView::Aes128 { uri, .. } => Some("aes128:"@ + uri),
        KeyView::SampleAesCtr { uri, .. } => Some("sample-aes-ctr:"@ + shown(uri)),
        KeyView::SampleAes { uri, .. } => Some("sample-aes:"@ + shown(uri)),
        KeyView::Unsupported { method, key_format } => Some(
            "unsupported:"@ + method + ":"@ + key_format,
        ),
    }
}

/// A text that may be missing, as the standard library shows it to programmers.
pub open spec fn shown(s: Option<Seq<char>>) -> Seq<char> {
    match s {
        Some(x) => "Some("@ + text::quoted(x) + ")"@,
        None => "None"@,
    }
}

fn push_shown(out: &mut String, s: &Option<String>)
    ensures
        final(out)@ == old(out)@ + shown(text::opt_text(*s)),
{
    match s {
        Some(x) => {
            text::push_str(out, "Some(");
            text::push_str(out, text::quote(x.as_str()).as_str());
            text::push_str(out, ")");
            assert(out@ =~= old(out)@ + ("Some("@ + text::quoted(x@) + ")"@));
        },
        None => {
            text::push_str(out, "None");
        },
    }
}

/// What tells the key of one segment from that of another.
pub fn hls_ts_key_marker(key: &HlsSegmentKey) -> (r: Option<String>)
    ensures
        text::opt_text(r) == marker_of(key@),
{
    match key {
        HlsSegmentKey::Clear => None,
        HlsSegmentKey::Aes128 { uri, .. } => {
            let mut out: String = text::clone_text("aes128:");
            text::push_str(&mut out, uri.as_str());
            Some(out)
        },
        HlsSegmentKey::SampleAesCtr { uri, .. } => {
            let mut out: String = text::clone_text("sample-aes-ctr:");
            push_shown(&mut out, uri);
            Some(out)
        },
        HlsSegmentKey::SampleAes { uri, .. } => {
            let mut out: String = text::clone_text("sample-aes:");
            push_shown(&mut out, uri);
            Some(out)
        },
        HlsSegmentKey::Unsupported { method, key_format } => {
            let mut out: String = text::clone_text("unsupported:");
            text::push_str(&mut out, method.as_str());
            text::push_str(&mut out, ":");
            text::push_str(&mut out, key_format.as_str());
            Some(out)
        },
    }
}

/// A key under the address that it was fetched from.
pub struct CachedKey {
    uri: String,
    key: [u8; 16],
}

/// What a value of [`CachedKey`] holds.
pub struct CachedKeyView {
    pub uri: Seq<char>,
    pub key: Seq<u8>,
}

impl View for CachedKey {
    type V = CachedKeyView;

    closed spec fn view(&self) -> CachedKeyView {
        CachedKeyView { uri: self.uri@, key: self.key@ }
    }
}

/// What a list of keys holds.
pub open spec fn cached_views(v: Seq<CachedKey>) -> Seq<CachedKeyView> {
    v.map_values(|c: CachedKey| c@)
}

/// The key that is kept for an address.
pub open spec fn kept_key(cache: Seq<CachedKeyView>, uri: Seq<char>, i: int) -> Option<Seq<u8>>
    decreases cache.len() - i,
{
    if i < 0 || i >= cache.len() {
        None
    } else if cache[i].uri == uri {
        Some(cache[i].key)
    } else {
        kept_key(cache, uri, i + 1)
    }
}

/// Why a TS segment cannot be taken.
#[derive(Debug)]
pub enum TsSegmentError {
    /// A method that needs an init segment, by its name, and the format of its key.
    NeedsMap { method: String, key_format: String },
    Unsupported { method: String, key_format: String },
    /// The answer holds no key.
    NoKey,
    Cipher(CbcError),
}

/// What a value of [`TsSegmentError`] holds.
pub enum TsErrorView {
    NeedsMap { method: Seq<char>, key_format: Seq<char> },
    Unsupported { method: Seq<char>, key_format: Seq<char> },
    NoKey,
    Cipher(CbcError),
}

impl View for TsSegmentError {
    type V = TsErrorView;

    open spec fn view(&self) -> TsErrorView {
        match self {
            TsSegmentError::NeedsMap { method, key_format } => TsErrorView::NeedsMap {
                method: method@,
                key_format: key_format@,
            },
            TsSegmentError::Unsupported { method, key_format } => TsErrorView::Unsupported {
                method: method@,
                key_format: key_format@,
            },
            TsSegmentError::NoKey => TsErrorView::NoKey,
            TsSegmentError::Cipher(e) => TsErrorView::Cipher(*e),
        }
    }
}

impl TsErrorView {
    pub open spec fn text(self) -> Seq<char> {
        match self {
            TsErrorView::NeedsMap { method, key_format } => "HLS "@ + method + " (keyformat="@
                + key_format + ") requires fMP4 EXT-X-MAP input"@,
            TsErrorView::Unsupported { method, key_format } => "unsupported HLS encryption method "@
                + method + " (keyformat="@ + key_format + ")"@,
            TsErrorView::NoKey => "HLS key URI returned unexpected body length"@,
            TsErrorView::Cipher(e) => e.text(),
        }
    }
}

impl TsSegmentError {
    /// The error in words.
    pub fn message(&self) -> (r: String)
        ensures
            r@ == self@.text(),
    {
        match self {
            TsSegmentError::NeedsMap { method, key_format } => {
                let mut out: String = text::clone_text("HLS ");
                text::push_str(&mut out, method.as_str());
                text::push_str(&mut out, " (keyformat=");
                text::push_str(&mut out, key_format.as_str());
                text::push_str(&mut out, ") requires fMP4 EXT-X-MAP input");
                out
            },
            TsSegmentError::Unsupported { method, key_format } => {
                let mut out: String = text::clone_text("unsupported HLS encryption method ");
                text::push_str(&mut out, method.as_str());
                text::push_str(&mut out, " (keyformat=");
                text::push_str(&mut out, key_format.as_str());
                text::push_str(&mut out, ")");
                out
            },
            TsSegmentError::NoKey => text::clone_text(
                "HLS key URI returned unexpected body length",
            ),
            TsSegmentError::Cipher(e) => e.message(),
        }
    }
}

/// What a segment needs before it can be appended.
#[derive(Debug)]
pub enum KeyStep {
    /// It is clear.
    Plain,
    /// This key opens it.
    Key([u8; 16]),
    /// Its key is to be fetched from this address.
    Fetch(String),
}

/// What a value of [`KeyStep`] holds.
pub enum KeyStepView {
    Plain,
    Key(Seq<u8>),
    Fetch(Seq<char>),
}

impl View for KeyStep {
    type V = KeyStepView;

    open spec fn view(&self) -> KeyStepView {
        match self {
            KeyStep::Plain => KeyStepView::Plain,
            KeyStep::Key(k) => KeyStepView::Key(k@),
            KeyStep::Fetch(u) => KeyStepView::Fetch(u@),
        }
    }
}

/// The pipeline of a TS source behind the downloads.
pub struct TsContext {
    configured_key: Option<[u8; 16]>,
    key_cache: Vec<CachedKey>,
    data: Vec<u8>,
    duration_ns: i64,
    subtitles: SubtitleAccumulator,
    discontinuity: bool,
    last_marker: Option<String>,
    out: Vec<Published>,
}

/// What a value of [`TsContext`] holds.
#[verifier::ext_equal]
pub struct TsView {
    /// The key that was given for all segments.
    pub configured_key: Option<Seq<u8>>,
    /// The keys that were fetched.
    pub cache: Seq<CachedKeyView>,
    /// The bytes of the next segment.
    pub data: Seq<u8>,
    pub duration_ns: i64,
    pub subtitles: AccumulatorView,
    /// Whether the next segment starts a new timeline.
    pub discontinuity: bool,
    /// What told the key of the last segment from others.
    pub last_marker: Option<Seq<char>>,
    /// What was put together and not taken yet.
    pub out: Seq<PublishedView>,
}

impl View for TsContext {
    type V = TsView;

    closed spec fn view(&self) -> TsView {
        TsView {
            configured_key: tenc::bytes_of(self.configured_key),
            cache: cached_views(self.key_cache@),
            data: self.data@,
            duration_ns: self.duration_ns,
            subtitles: self.subtitles@,
            discontinuity: self.discontinuity,
            last_marker: text::opt_text(self.last_marker),
            out: buffer::published_views(self.out@),
        }
    }
}

impl TsView {
    /// With the bytes so far handed on, if there are any.
    pub open spec fn flushed(self) -> Self {
        if self.data.len() == 0 {
            self
        } else {
            TsView {
                data: Seq::empty(),
                duration_ns: 0,
                subtitles: buffer::no_subtitles(),
                discontinuity: false,
                out: self.out.push(
                    PublishedView {
                        duration_ns: self.duration_ns,
                        data: self.data,
                        subtitle: self.subtitles.body,
                        discontinuity: self.discontinuity,
                    },
                ),
                ..self
            }
        }
    }

    /// With a new timeline behind what there is so far.
    pub open spec fn at_break(self) -> Self {
        TsView { discontinuity: true, ..self.flushed() }
    }

    /// Behind a segment that could not be had.
    pub open spec fn at_gap(self) -> Self {
        TsView { subtitles: buffer::no_subtitles(), last_marker: None, ..self.at_break() }
    }

    /// Before a segment: one with another key, or of a new timeline, starts anew.
    pub open spec fn before_segment(self, seg: HlsSegmentView) -> Self {
        let marker = marker_of(seg.key);
        let s = if mpd_keys::differ(self.last_marker, marker) {
            self.flushed()
        } else {
            self
        };
        let t = if seg.discontinuity {
            s.at_break()
        } else {
            s
        };
        TsView { last_marker: marker, ..t }
    }

    /// What a segment needs, or why it cannot be taken.
    pub open spec fn key_step(self, seg: HlsSegmentView) -> Result<KeyStepView, TsErrorView> {
        match seg.key {
            KeyView::Clear => Ok(KeyStepView::Plain),
            KeyView::Aes128 { uri, .. } => match self.configured_key {
                Some(k) => Ok(KeyStepView::Key(k)),
                None => match kept_key(self.cache, uri, 0) {
                    Some(k) => Ok(KeyStepView::Key(k)),
                    None => Ok(KeyStepView::Fetch(uri)),
                },
            },
            KeyView::SampleAesCtr { key_format, .. } => Err(
                TsErrorView::NeedsMap { method: "SAMPLE-AES-CTR"@, key_format },
            ),
            KeyView::SampleAes { key_format, .. } => Err(
                TsErrorView::NeedsMap { method: "SAMPLE-AES"@, key_format },
            ),
            KeyView::Unsupported { method, key_format } => Err(
                TsErrorView::Unsupported { method, key_format },
            ),
        }
    }

    /// The bytes of a segment, decrypted where there is a key. The number of a segment without an
    /// IV is its IV.
    pub open spec fn clear_bytes(seg: HlsSegmentView, data: Seq<u8>, key: Option<Seq<u8>>) -> Result<
        Seq<u8>,
        CbcError,
    > {
        match key {
            None => Ok(data),
            Some(k) => {
                let iv = match seg.key {
                    KeyView::Aes128 { iv: Some(x), .. } => x,
                    _ => hls::sequence_iv(seg.sequence),
                };
                hls::plain_segment(data, k, iv)
            },
        }
    }

    /// With a segment behind what there is so far, and handed on if that is enough.
    pub open spec fn with_bytes(
        self,
        bytes: Seq<u8>,
        duration_ns: i64,
        subtitle: Option<Seq<u8>>,
    ) -> Self {
        let s = TsView {
            data: self.data + bytes,
            duration_ns: time::duration_sum(self.duration_ns, duration_ns),
            subtitles: AccumulatorView {
                body: match subtitle {
                    Some(b) => fragment::with_body(
                        self.subtitles.body,
                        fragment::fragment_body(
                            b,
                            self.subtitles.duration_ns as int,
                            time::not_below_zero(duration_ns) as int,
                            1_000,
                            None,
                            None,
                        ),
                    ),
                    None => self.subtitles.body,
                },
                duration_ns: fragment::with_duration(self.subtitles.duration_ns, duration_ns),
            },
            ..self
        };
        if s.duration_ns >= AGGREGATE_TARGET_S * SECOND || duration_ns >= SHORT_SEG_THRESHOLD_S
            * SECOND {
            s.flushed()
        } else {
            s
        }
    }
}

impl TsContext {
    /// Nothing yet. The first key of `keys` opens every segment.
    pub fn new(keys: &str) -> (r: Self)
        ensures
            r@ == (TsView {
                configured_key: first_key(text::lines_of(keys@), 0),
                cache: Seq::empty(),
                data: Seq::empty(),
                duration_ns: 0,
                subtitles: buffer::no_subtitles(),
                discontinuity: false,
                last_marker: None,
                out: Seq::empty(),
            }),
    {
        let r = TsContext {
            configured_key: first_configured_key(keys),
            key_cache: Vec::new(),
            data: Vec::new(),
            duration_ns: 0,
            subtitles: SubtitleAccumulator::new(),
            discontinuity: false,
            last_marker: None,
            out: Vec::new(),
        };
        assert(r@.cache =~= Seq::<CachedKeyView>::empty());
        assert(r@.out =~= Seq::<PublishedView>::empty());
        r
    }

    /// Hands on the bytes so far, if there are any.
    pub fn flush(&mut self)
        ensures
            final(self)@ == old(self)@.flushed(),
    {
        if self.data.len() == 0 {
            return;
        }
        let mut data: Vec<u8> = Vec::new();
        std::mem::swap(&mut data, &mut self.data);
        let subtitle: String = self.subtitles.take_body();
        let p = Published {
            duration_ns: self.duration_ns,
            data,
            subtitle,
            discontinuity: self.discontinuity,
        };
        self.duration_ns = 0;
        self.discontinuity = false;
        self.out.push(p);
        assert(self@ =~= old(self)@.flushed());
    }

    /// Starts a new timeline.
    pub fn mark_break(&mut self)
        ensures
            final(self)@ == old(self)@.at_break(),
    {
        self.flush();
        self.discontinuity = true;
        assert(self@ =~= old(self)@.at_break());
    }

    /// Goes on behind a segment that could not be had.
    pub fn mark_gap(&mut self)
        ensures
            final(self)@ == old(self)@.at_gap(),
    {
        self.mark_break();
        self.subtitles.clear();
        self.last_marker = None;
        assert(self@ =~= old(self)@.at_gap());
    }

    fn find_key(&self, uri: &str) -> (r: Option<[u8; 16]>)
        ensures
            tenc::bytes_of(r) == kept_key(self@.cache, uri@, 0),
    {
        let ghost all = self@.cache;
        let n: usize = self.key_cache.len();
        let mut i: usize = 0;
        while i < n
            invariant
                n == self.key_cache@.len(),
                i <= n,
                all == cached_views(self.key_cache@),
                kept_key(all, uri@, 0) == kept_key(all, uri@, i as int),
                all == self@.cache,
            decreases n - i,
        {
            assert(all[i as int] == self.key_cache@[i as int]@);
            if text::same(self.key_cache[i].uri.as_str(), uri) {
                return Some(self.key_cache[i].key);
            }
            i = i + 1;
        }
        None
    }

    /// Begins with a segment: what it needs, or why it cannot be taken.
    pub fn begin_segment(&mut self, seg: &HlsSegment) -> (r: Result<KeyStep, TsSegmentError>)
        ensures
            final(self)@ == old(self)@.before_segment(seg@),
            match r {
                Ok(k) => final(self)@.key_step(seg@) == Ok::<KeyStepView, TsErrorView>(k@),
                Err(e) => final(self)@.key_step(seg@) == Err::<KeyStepView, TsErrorView>(e@),
            },
    {
        let marker: Option<String> = hls_ts_key_marker(&seg.key);
        if mpd_keys::key_changed(&self.last_marker, &marker) {
            self.flush();
        }
        if seg.discontinuity {
            self.mark_break();
        }
        self.last_marker = marker;
        assert(self@ =~= old(self)@.before_segment(seg@));
        match &seg.key {
            HlsSegmentKey::Clear => Ok(KeyStep::Plain),
            HlsSegmentKey::Aes128 { uri, .. } => match self.configured_key {
                Some(k) => Ok(KeyStep::Key(k)),
                None => match self.find_key(uri.as_str()) {
                    Some(k) => Ok(KeyStep::Key(k)),
                    None => Ok(KeyStep::Fetch(text::clone_text(uri.as_str()))),
                },
            },
            HlsSegmentKey::SampleAesCtr { key_format, .. } => Err(
                TsSegmentError::NeedsMap {
                    method: text::clone_text("SAMPLE-AES-CTR"),
                    key_format: text::clone_text(key_format.as_str()),
                },
            ),
            HlsSegmentKey::SampleAes { key_format, .. } => Err(
                TsSegmentError::NeedsMap {
                    method: text::clone_text("SAMPLE-AES"),
                    key_format: text::clone_text(key_format.as_str()),
                },
            ),
            HlsSegmentKey::Unsupported { method, key_format } => Err(
                TsSegmentError::Unsupported {
                    method: text::clone_text(method.as_str()),
                    key_format: text::clone_text(key_format.as_str()),
                },
            ),
        }
    }

    /// Keeps the key that was fetched from an address.
    pub fn keep_key(&mut self, uri: &str, body: &[u8]) -> (r: Result<[u8; 16], TsSegmentError>)
        ensures
            match r {
                Ok(k) => {
                    &&& key_in_body(body@) == Some(k@)
                    &&& final(self)@ == (TsView {
                        cache: old(self)@.cache.push(CachedKeyView { uri: uri@, key: k@ }),
                        ..old(self)@
                    })
                },
                Err(e) => {
                    &&& key_in_body(body@) is None
                    &&& e@ == TsErrorView::NoKey
                    &&& final(self)@ == old(self)@
                },
            },
    {
        match parse_key_body(body) {
            Some(k) => {
                let ghost before = self.key_cache@;
                let c = CachedKey { uri: text::clone_text(uri), key: k };
                self.key_cache.push(c);
                assert(cached_views(self.key_cache@) =~= cached_views(before).push(c@));
                Ok(k)
            },
            None => Err(TsSegmentError::NoKey),
        }
    }

    /// Appends a segment, decrypted where there is a key.
    pub fn append_segment(
        &mut self,
        seg: &HlsSegment,
        data: &[u8],
        key: Option<[u8; 16]>,
        subtitle: Option<&[u8]>,
    ) -> (r: Result<(), TsSegmentError>)
        ensures
            match TsView::clear_bytes(seg@, data@, tenc::bytes_of(key)) {
                Ok(b) => {
                    &&& r is Ok
                    &&& final(self)@ == old(self)@.with_bytes(
                        b,
                        seg@.duration_ns,
                        mpd_session::opt_slice(subtitle),
                    )
                },
                Err(e) => {
                    &&& r matches Err(x) && x@ == TsErrorView::Cipher(e)
                    &&& final(self)@ == old(self)@
                },
            },
    {
        let clear: Vec<u8> = match key {
            None => wire::copy(data),
            Some(k) => {
                let own: Option<[u8; 16]> = match &seg.key {
                    HlsSegmentKey::Aes128 { iv, .. } => *iv,
                    _ => None,
                };
                let iv: [u8; 16] = match own {
                    Some(x) => x,
                    None => hls::iv_from_media_sequence(seg.sequence),
                };
                match hls::decrypt_aes128_cbc_pkcs7(data, k, iv) {
                    Ok(p) => p,
                    Err(e) => return Err(TsSegmentError::Cipher(e)),
                }
            },
        };
        let ghost before = self@;
        let ns: i64 = seg.duration_ns;
        wire::append(&mut self.data, clear.as_slice());
        self.duration_ns = time::add_durations(self.duration_ns, ns);
        match subtitle {
            Some(b) => {
                self.subtitles.append_fragment(b, ns, 1_000, None, None);
            },
            None => {
                self.subtitles.append_empty(ns);
            },
        }
        if self.duration_ns >= (AGGREGATE_TARGET_S * SECOND) as i64 || ns >= (SHORT_SEG_THRESHOLD_S
            * SECOND) as i64 {
            self.flush();
        }
        assert(self@ =~= before.with_bytes(clear@, ns, mpd_session::opt_slice(subtitle)));
        Ok(())
    }

    /// Hands out what was put together.
    pub fn take_published(&mut self) -> (r: Vec<Published>)
        ensures
            buffer::published_views(r@) == old(self)@.out,
            final(self)@ == (TsView { out: Seq::empty(), ..old(self)@ }),
    {
        let mut r: Vec<Published> = Vec::new();
        std::mem::swap(&mut r, &mut self.out);
        assert(self@ =~= (TsView { out: Seq::empty(), ..old(self)@ }));
        r
    }
}

/// The bytes of a source so far: what was handed on, and what was not.
pub open spec fn stream_of(t: TsView) -> Seq<u8> {
    concatenated(t.out) + t.data
}

/// The bytes of segments one behind the other.
pub open spec fn concatenated(out: Seq<PublishedView>) -> Seq<u8>
    decreases out.len(),
{
    if out.len() == 0 {
        Seq::empty()
    } else {
        concatenated(out.drop_last()) + out.last().data
    }
}

proof fn lemma_flush_keeps_stream(t: TsView)
    ensures
        stream_of(t.flushed()) == stream_of(t),
{
    if t.data.len() > 0 {
        let f = t.flushed();
        assert(f.out.drop_last() =~= t.out);
        assert(stream_of(f) =~= stream_of(t));
    }
}

/// No byte of a clear TS source is lost, repeated or moved: what a segment holds goes behind all
/// that came before, however it is put together.
pub proof fn law_ts_passes_through(
    t: TsView,
    seg: HlsSegmentView,
    bytes: Seq<u8>,
    subtitle: Option<Seq<u8>>,
)
    ensures
        stream_of(t.before_segment(seg).with_bytes(bytes, seg.duration_ns, subtitle)) == stream_of(t)
            + bytes,
{
    let marker = marker_of(seg.key);
    let s = if mpd_keys::differ(t.last_marker, marker) {
        t.flushed()
    } else {
        t
    };
    lemma_flush_keeps_stream(t);
    lemma_flush_keeps_stream(s);
    let b = t.before_segment(seg);
    assert(stream_of(b) == stream_of(t));
    let long = TsView { data: b.data + bytes, ..b };
    assert(stream_of(long) =~= stream_of(b) + bytes);
    let full = TsView {
        data: b.data + bytes,
        duration_ns: time::duration_sum(b.duration_ns, seg.duration_ns),
        subtitles: AccumulatorView {
            body: match subtitle {
                Some(x) => fragment::with_body(
                    b.subtitles.body,
                    fragment::fragment_body(
                        x,
                        b.subtitles.duration_ns as int,
                        time::not_below_zero(seg.duration_ns) as int,
                        1_000,
                        None,
                        None,
                    ),
                ),
                None => b.subtitles.body,
            },
            duration_ns: fragment::with_duration(b.subtitles.duration_ns, seg.duration_ns),
        },
        ..b
    };
    assert(stream_of(full) == stream_of(long));
    lemma_flush_keeps_stream(full);
}

/// A key that was fetched is not fetched again.
pub proof fn law_key_is_fetched_once(t: TsView, uri: Seq<char>, key: Seq<u8>)
    ensures
        kept_key(t.cache.push(CachedKeyView { uri, key }), uri, 0) is Some,
{
    lemma_kept(t.cache.push(CachedKeyView { uri, key }), uri, 0);
}

proof fn lemma_kept(cache: Seq<CachedKeyView>, uri: Seq<char>, i: int)
    requires
        0 <= i < cache.len(),
        cache.last().uri == uri,
    ensures
        kept_key(cache, uri, i) is Some,
    decreases cache.len() - i,
{
    if cache[i].uri != uri {
        lemma_kept(cache, uri, i + 1);
    }
}

/// A key that was fetched opens the segments of its address, as long as no other was kept for it;
/// and leaves the keys of other addresses as they are.
pub proof fn law_fetched_key_is_used(
    cache: Seq<CachedKeyView>,
    uri: Seq<char>,
    key: Seq<u8>,
    other: Seq<char>,
    i: int,
)
    requires
        0 <= i <= cache.len(),
    ensures
        kept_key(cache, uri, i) is None ==> kept_key(
            cache.push(CachedKeyView { uri, key }),
            uri,
            i,
        ) == Some(key),
        other != uri ==> kept_key(cache.push(CachedKeyView { uri, key }), other, i) == kept_key(
            cache,
            other,
            i,
        ),
    decreases cache.len() - i,
{
    let more = cache.push(CachedKeyView { uri, key });
    if i < cache.len() {
        assert(more[i] == cache[i]);
        law_fetched_key_is_used(cache, uri, key, other, i + 1);
    } else {
        assert(more[i] == (CachedKeyView { uri, key }));
        reveal_with_fuel(kept_key, 2);
    }
}

/// A segment that was padded and encrypted is given back: with the IV that its key states, or else
/// with its number. One without a key stays as it is.
pub proof fn law_ts_segment_is_decrypted(
    seg: HlsSegmentView,
    key: Seq<u8>,
    e: spec_fn(Seq<u8>) -> Seq<u8>,
    p: Seq<u8>,
    uri: Seq<char>,
    iv: Option<Seq<u8>>,
)
    requires
        seg.key == (KeyView::Aes128 { uri, iv }),
        iv matches Some(x) ==> x.len() == 16,
        forall|b: Seq<u8>|
            b.len() == 16 ==> (#[trigger] e(b)).len() == 16 && cenc::aes128_plain(key, e(b)) == b,
    ensures
        ({
            let start = match iv {
                Some(x) => x,
                None => hls::sequence_iv(seg.sequence),
            };
            TsView::clear_bytes(
                seg,
                cenc::cbcs_encrypted(e, hls::padded(p), 0, start, 0, 0),
                Some(key),
            ) == Ok::<Seq<u8>, CbcError>(p)
        }),
        TsView::clear_bytes(seg, p, None) == Ok::<Seq<u8>, CbcError>(p),
{
    let start = match iv {
        Some(x) => x,
        None => hls::sequence_iv(seg.sequence),
    };
    hls::law_sequence_iv_counts(seg.sequence);
    hls::law_segment_round_trip(key, e, p, start);
}

/// What a segment needs is told by its key: nothing, the key of the task, the key that was kept for
/// its address, or else the one at its address.
pub proof fn law_key_step_follows_key(t: TsView, seg: HlsSegmentView, uri: Seq<char>, iv: Option<Seq<u8>>)
    ensures
        seg.key is Clear ==> t.key_step(seg) matches Ok(KeyStepView::Plain),
        seg.key == (KeyView::Aes128 { uri, iv }) ==> match (
        t.configured_key, kept_key(t.cache, uri, 0)) {
            (Some(k), _) => t.key_step(seg) == Ok::<_, TsErrorView>(KeyStepView::Key(k)),
            (None, Some(k)) => t.key_step(seg) == Ok::<_, TsErrorView>(KeyStepView::Key(k)),
            (None, None) => t.key_step(seg) == Ok::<_, TsErrorView>(KeyStepView::Fetch(uri)),
        },
        seg.key is SampleAes || seg.key is SampleAesCtr || seg.key is Unsupported ==> t.key_step(
            seg,
        ) is Err,
{
}

/// Segments are put together until they last 8 seconds, or until one lasts 4 by itself; what is
/// handed on then holds all bytes since the last time.
pub proof fn law_ts_is_handed_on_when_long(
    t: TsView,
    bytes: Seq<u8>,
    duration_ns: i64,
    subtitle: Option<Seq<u8>>,
)
    requires
        bytes.len() > 0,
        i64::MIN <= t.duration_ns + duration_ns <= i64::MAX,
    ensures
        ({
            let s = t.with_bytes(bytes, duration_ns, subtitle);
            let whole = t.duration_ns + duration_ns;
            let long = whole >= 8_000_000_000 || duration_ns >= 4_000_000_000;
            &&& long ==> {
                &&& s.out.len() == t.out.len() + 1
                &&& s.out.drop_last() == t.out
                &&& s.out.last().data == t.data + bytes
                &&& s.out.last().duration_ns == whole
                &&& s.out.last().discontinuity == t.discontinuity
                &&& s.data.len() == 0 && s.duration_ns == 0 && !s.discontinuity
            }
            &&& !long ==> s.out == t.out && s.data == t.data + bytes && s.duration_ns == whole
                && s.discontinuity == t.discontinuity
        }),
{
    let s = t.with_bytes(bytes, duration_ns, subtitle);
    if s.out != t.out {
        assert(s.out.drop_last() =~= t.out);
    }
}

/// A segment with another key, or one that starts a new timeline, is not put behind what came
/// before: that is handed on first, and the new timeline is marked.
pub proof fn law_ts_breaks_are_kept(t: TsView, seg: HlsSegmentView)
    requires
        t.data.len() > 0,
    ensures
        ({
            let s = t.before_segment(seg);
            let other = t.last_marker is Some && marker_of(seg.key) is Some && t.last_marker
                != marker_of(seg.key);
            &&& other || seg.discontinuity ==> s.data.len() == 0 && s.out.len() == t.out.len() + 1
                && s.out.last().data == t.data && s.out.last().duration_ns == t.duration_ns
            &&& seg.discontinuity ==> s.discontinuity
            &&& !other && !seg.discontinuity ==> s.data == t.data && s.out == t.out
                && s.discontinuity == t.discontinuity
            &&& s.last_marker == marker_of(seg.key)
        }),
{
}

} // verus!
