//! HLS sources of fMP4 segments: they are decrypted, put together and muxed.

use vstd::prelude::*;

use super::aggregate;
use super::batch::{Batch, BatchView, Step};
use super::buffer;
use super::buffer::{Buffer, BufferView, Line, Published, UNSET_ORIGIN};
use super::hls_source;
use super::hls_source::{Fmp4Job, Fmp4JobView, InputView, SelectedHlsInput};
use super::init;
use super::init::{AudioInit, VideoInit};
use super::key_resolver;
use super::live_tuning::{AGGREGATE_TARGET_S, SHORT_SEG_THRESHOLD_S};
use super::mpd_keys;
use super::mpd_session;
use super::mpd_session::{TrackKids, TrackKidsView};
use crate::crypto::cenc::{Decryptor, DecryptorView, EncryptionMode, KeyStore, KeyStoreView};
use crate::crypto::playready;
use crate::hevc::annexb::AccessUnit;
use crate::hls::parser::{HlsSegmentView, KeyView, MediaView};
use crate::hls::{HlsMediaPlaylist, HlsSegment, HlsSegmentKey};
use crate::mp4::aac;
use crate::mp4::aac::AacConfig;
use crate::mp4::dvcc;
use crate::mp4::mdhd;
use crate::mp4::sample;
use crate::mp4::sample::{ParsedSegment, SegmentView};
use crate::mp4::tenc;
use crate::mp4::tenc::TrackEncryptionView;
use crate::mp4::TrackEncryption;
use crate::subtitle::fragment;
use crate::text;
use crate::time;
use crate::time::SECOND;
use crate::ts;
use crate::ts::muxer;
use crate::ts::muxer::{AudioUnit, AudioUnitView, TsMuxer};
use crate::ts::{AudioCodec, VideoCodec};

verus! {

/// A track of an fMP4 source.
#[derive(Debug, Clone, Copy, PartialEq, Eq, Structural)]
pub enum Fmp4TrackKind {
    Video,
    Audio,
    Subtitle,
}

impl Fmp4TrackKind {
    pub open spec fn text(self) -> Seq<char> {
        match self {
            Fmp4TrackKind::Video => "video"@,
            Fmp4TrackKind::Audio => "audio"@,
            Fmp4TrackKind::Subtitle => "subtitle"@,
        }
    }

    /// The track in words.
    pub fn label(self) -> (r: &'static str)
        ensures
            r@ == self.text(),
    {
        match self {
            Fmp4TrackKind::Video => "video",
            Fmp4TrackKind::Audio => "audio",
            Fmp4TrackKind::Subtitle => "subtitle",
        }
    }
}

/// The audio codec that the codecs of an HLS variant name.
pub fn detect_audio_codec(codecs: &str) -> (r: AudioCodec)
    ensures
        r == init::audio_codec_in(text::lowered(codecs@)),
{
    let l: String = text::to_lowercase(codecs);
    init::find_audio_codec(text::to_chars(l.as_str()).as_slice())
}

/// The IV that the playlist states.
pub open spec fn iv_of(key: KeyView) -> Option<Seq<u8>> {
    match key {
        KeyView::SampleAes { iv, .. } => iv,
        KeyView::Aes128 { iv, .. } => iv,
        _ => None,
    }
}

/// The IV that the playlist states.
pub fn hls_key_iv(key: &HlsSegmentKey) -> (r: Option<[u8; 16]>)
    ensures
        tenc::bytes_of(r) == iv_of(key@),
{
    match key {
        HlsSegmentKey::SampleAes { iv, .. } => *iv,
        HlsSegmentKey::Aes128 { iv, .. } => *iv,
        _ => None,
    }
}

/// The identifier that the playlist states: that of a PlayReady header in the address of the key.
pub open spec fn stated_kid(key: KeyView) -> Option<Seq<char>> {
    let uri = match key {
        KeyView::SampleAesCtr { uri, .. } => uri,
        KeyView::SampleAes { uri, .. } => uri,
        _ => None,
    };
    match uri {
        Some(u) => match playready::data_uri_kid(u) {
            Some(k) => key_resolver::kid_of(k),
            None => None,
        },
        None => None,
    }
}

/// The identifier that the playlist states.
pub fn hls_key_kid(key: &HlsSegmentKey) -> (r: Option<String>)
    ensures
        text::opt_text(r) == stated_kid(key@),
{
    let uri: &Option<String> = match key {
        HlsSegmentKey::SampleAesCtr { uri, .. } => uri,
        HlsSegmentKey::SampleAes { uri, .. } => uri,
        _ => return None,
    };
    match uri {
        Some(u) => match playready::kid_from_playready_data_uri(u.as_str()) {
            Some(k) => key_resolver::normalize_kid(k.as_str()),
            None => None,
        },
        None => None,
    }
}

/// The identifiers that the first `n` segments state.
pub open spec fn stated_kids(s: Seq<HlsSegmentView>, n: int) -> Seq<Seq<char>>
    decreases n,
{
    if n <= 0 {
        Seq::empty()
    } else {
        let before = stated_kids(s, n - 1);
        match stated_kid(s[n - 1].key) {
            Some(k) => before.push(k),
            None => before,
        }
    }
}

/// The identifiers that a playlist states, each once, in order.
pub fn playlist_advertised_kids(p: &HlsMediaPlaylist) -> (r: Vec<String>)
    ensures
        text::texts(r@) == advertised(p@),
{
    let ghost s = p@.segments;
    let mut kids: Vec<String> = Vec::new();
    assert(text::texts(kids@) =~= Seq::<Seq<char>>::empty());
    let n: usize = p.segments.len();
    for i in 0..n
        invariant
            n == p.segments@.len(),
            s == p@.segments,
            text::texts(kids@) == stated_kids(s, i as int),
    {
        assert(s[i as int] == p.segments@[i as int]@);
        if let Some(k) = hls_key_kid(&p.segments[i].key) {
            let ghost before = kids@;
            kids.push(k);
            assert(text::texts(kids@) =~= text::texts(before).push(k@));
        }
    }
    key_resolver::normalize_unique_kids(kids.as_slice())
}

/// The identifiers that a playlist states, each once, in order.
pub open spec fn advertised(p: MediaView) -> Seq<Seq<char>> {
    key_resolver::unique_kids(stated_kids(p.segments, p.segments.len() as int))
}

/// The decryptor of a track: in pattern mode where the init segment or the playlist says so. The
/// IV of the init segment goes before that of the playlist.
pub open spec fn decryptor_of(
    key: Seq<u8>,
    tenc: Option<TrackEncryptionView>,
    playlist_iv: Option<Seq<u8>>,
    sample_aes: bool,
) -> DecryptorView {
    let cbcs = sample_aes || tenc is Some && tenc->0.scheme == Some("cbcs"@);
    DecryptorView {
        key,
        constant_iv: match tenc {
            Some(t) if t.constant_iv is Some => t.constant_iv,
            _ => playlist_iv,
        },
        mode: if cbcs {
            EncryptionMode::Cbcs {
                crypt_byte_block: match tenc {
                    Some(t) => t.crypt_byte_block,
                    None => 0,
                },
                skip_byte_block: match tenc {
                    Some(t) => t.skip_byte_block,
                    None => 0,
                },
            }
        } else {
            EncryptionMode::CencCtr
        },
    }
}

/// Makes the decryptor of a track.
pub fn build_fmp4_decryptor(
    key: [u8; 16],
    tenc: Option<&TrackEncryption>,
    playlist_iv: Option<[u8; 16]>,
    sample_aes: bool,
) -> (r: Decryptor)
    ensures
        r@ == decryptor_of(key@, mpd_keys::ref_tenc(tenc), tenc::bytes_of(playlist_iv), sample_aes),
{
    let cbcs: bool = sample_aes || match tenc {
        Some(t) => t.is_cbcs(),
        None => false,
    };
    let own: Option<[u8; 16]> = match tenc {
        Some(t) => t.constant_iv,
        None => None,
    };
    let iv: Option<[u8; 16]> = match own {
        Some(x) => Some(x),
        None => playlist_iv,
    };
    let (crypt, skip): (u8, u8) = match tenc {
        Some(t) => (t.crypt_byte_block, t.skip_byte_block),
        None => (0, 0),
    };
    let d: Decryptor = if cbcs {
        match iv {
            Some(x) => Decryptor::cbcs_with_constant_iv(key, x, crypt, skip),
            None => Decryptor::new_cbcs(key, crypt, skip),
        }
    } else {
        match iv {
            Some(x) => Decryptor::with_constant_iv(key, x),
            None => Decryptor::new(key),
        }
    };
    assert(d@ =~= decryptor_of(
        key@,
        mpd_keys::ref_tenc(tenc),
        tenc::bytes_of(playlist_iv),
        sample_aes,
    ));
    d
}

/// Why an fMP4 segment cannot be taken.
#[derive(Debug)]
pub enum Fmp4Error {
    /// The segment is encrypted as a whole.
    WholeSegmentKey,
    Unsupported { method: String, key_format: String },
    NoKey { track: Fmp4TrackKind, kid: Option<String> },
    VideoUnreadable,
    /// A video sample starts behind the media data.
    VideoTruncated,
    AudioUnreadable,
    /// An audio sample starts behind the media data.
    AudioTruncated,
}

/// What a value of [`Fmp4Error`] holds.
pub enum Fmp4ErrorView {
    WholeSegmentKey,
    Unsupported { method: Seq<char>, key_format: Seq<char> },
    NoKey { track: Fmp4TrackKind, kid: Option<Seq<char>> },
    VideoUnreadable,
    VideoTruncated,
    AudioUnreadable,
    AudioTruncated,
}

impl View for Fmp4Error {
    type V = Fmp4ErrorView;

    open spec fn view(&self) -> Fmp4ErrorView {
        match self {
            Fmp4Error::WholeSegmentKey => Fmp4ErrorView::WholeSegmentKey,
            Fmp4Error::Unsupported { method, key_format } => Fmp4ErrorView::Unsupported {
                method: method@,
                key_format: key_format@,
            },
            Fmp4Error::NoKey { track, kid } => Fmp4ErrorView::NoKey {
                track: *track,
                kid: text::opt_text(*kid),
            },
            Fmp4Error::VideoUnreadable => Fmp4ErrorView::VideoUnreadable,
            Fmp4Error::VideoTruncated => Fmp4ErrorView::VideoTruncated,
            Fmp4Error::AudioUnreadable => Fmp4ErrorView::AudioUnreadable,
            Fmp4Error::AudioTruncated => Fmp4ErrorView::AudioTruncated,
        }
    }
}

/// An optional text as it is shown.
pub open spec fn quoted(s: Option<Seq<char>>) -> Seq<char> {
    match s {
        Some(x) => "Some(\""@ + x + "\")"@,
        None => "None"@,
    }
}

impl Fmp4ErrorView {
    pub open spec fn text(self, sequence: u64) -> Seq<char> {
        match self {
            Fmp4ErrorView::WholeSegmentKey =>
            "HLS AES-128 full-segment encryption is not valid for fMP4 EXT-X-MAP input"@,
            Fmp4ErrorView::Unsupported { method, key_format } =>
            "unsupported HLS fMP4 encryption method "@ + method + " (keyformat="@ + key_format
                + ")"@,
            Fmp4ErrorView::NoKey { track, kid } => "no key matches HLS "@ + track.text() + " KID "@
                + quoted(kid),
            Fmp4ErrorView::VideoUnreadable => "parse HLS video seq "@ + text::decimal(
                sequence as int,
            ) + " failed"@,
            Fmp4ErrorView::VideoTruncated => "HLS video seq "@ + text::decimal(sequence as int)
                + " is truncated"@,
            Fmp4ErrorView::AudioUnreadable => "parse HLS audio seq "@ + text::decimal(
                sequence as int,
            ) + " failed"@,
            Fmp4ErrorView::AudioTruncated => "HLS audio seq "@ + text::decimal(sequence as int)
                + " is truncated"@,
        }
    }
}

fn numbered_message(before: &str, sequence: u64, behind: &str) -> (r: String)
    ensures
        r@ == before@ + text::decimal(sequence as int) + behind@,
{
    let mut out: String = text::clone_text(before);
    text::push_decimal(&mut out, sequence);
    text::push_str(&mut out, behind);
    out
}

impl Fmp4Error {
    /// The error in words, of the segment `sequence`.
    pub fn message(&self, sequence: u64) -> (r: String)
        ensures
            r@ == self@.text(sequence),
    {
        match self {
            Fmp4Error::WholeSegmentKey => text::clone_text(
                "HLS AES-128 full-segment encryption is not valid for fMP4 EXT-X-MAP input",
            ),
            Fmp4Error::Unsupported { method, key_format } => {
                let mut out: String = text::clone_text("unsupported HLS fMP4 encryption method ");
                text::push_str(&mut out, method.as_str());
                text::push_str(&mut out, " (keyformat=");
                text::push_str(&mut out, key_format.as_str());
                text::push_str(&mut out, ")");
                out
            },
            Fmp4Error::NoKey { track, kid } => {
                let mut out: String = text::clone_text("no key matches HLS ");
                text::push_str(&mut out, track.label());
                text::push_str(&mut out, " KID ");
                let ghost before = out@;
                match kid {
                    Some(k) => {
                        text::push_str(&mut out, "Some(\"");
                        text::push_str(&mut out, k.as_str());
                        text::push_str(&mut out, "\")");
                        assert(out@ =~= before + quoted(Some(k@)));
                    },
                    None => {
                        text::push_str(&mut out, "None");
                    },
                }
                out
            },
            Fmp4Error::VideoUnreadable => numbered_message(
                "parse HLS video seq ",
                sequence,
                " failed",
            ),
            Fmp4Error::VideoTruncated => numbered_message(
                "HLS video seq ",
                sequence,
                " is truncated",
            ),
            Fmp4Error::AudioUnreadable => numbered_message(
                "parse HLS audio seq ",
                sequence,
                " failed",
            ),
            Fmp4Error::AudioTruncated => numbered_message(
                "HLS audio seq ",
                sequence,
                " is truncated",
            ),
        }
    }
}

/// Why a segment with such a key cannot be one of fMP4.
pub open spec fn key_error(key: KeyView) -> Option<Fmp4ErrorView> {
    match key {
        KeyView::Aes128 { .. } => Some(Fmp4ErrorView::WholeSegmentKey),
        KeyView::Unsupported { method, key_format } => Some(
            Fmp4ErrorView::Unsupported { method, key_format },
        ),
        _ => None,
    }
}

/// Tells why a segment with such a key cannot be one of fMP4.
pub fn ensure_fmp4_key(key: &HlsSegmentKey) -> (r: Result<(), Fmp4Error>)
    ensures
        match r {
            Ok(()) => key_error(key@) is None,
            Err(e) => key_error(key@) == Some(e@),
        },
{
    match key {
        HlsSegmentKey::Aes128 { .. } => Err(Fmp4Error::WholeSegmentKey),
        HlsSegmentKey::Unsupported { method, key_format } => Err(
            Fmp4Error::Unsupported {
                method: text::clone_text(method.as_str()),
                key_format: text::clone_text(key_format.as_str()),
            },
        ),
        _ => Ok(()),
    }
}

/// What is known of a track: where its init segment is, and how it is encrypted.
#[derive(Debug)]
pub struct TrackSetup {
    pub map_uri: Option<String>,
    pub tenc: Option<TrackEncryption>,
}

/// What a value of [`TrackSetup`] holds.
pub struct TrackSetupView {
    pub map_uri: Option<Seq<char>>,
    pub tenc: Option<TrackEncryptionView>,
}

impl View for TrackSetup {
    type V = TrackSetupView;

    open spec fn view(&self) -> TrackSetupView {
        TrackSetupView { map_uri: text::opt_text(self.map_uri), tenc: init::opt_tenc(self.tenc) }
    }
}

impl TrackSetupView {
    /// The identifier of the key of a segment: the playlist goes before the init segment.
    pub open spec fn kid_of(self, seg: HlsSegmentView) -> Option<Seq<char>> {
        match stated_kid(seg.key) {
            Some(k) => Some(k),
            None => mpd_keys::tenc_kid(self.tenc),
        }
    }

    /// The IV size of samples that state none.
    pub open spec fn iv_size(self) -> Option<u8> {
        match self.tenc {
            Some(t) => Some(t.iv_size),
            None => None,
        }
    }

    /// Whether a segment is encrypted.
    pub open spec fn encrypts(self, seg: HlsSegmentView) -> bool {
        self.tenc is Some || seg.key is SampleAesCtr || seg.key is SampleAes
    }

    /// What opens a segment: a clear one needs nothing.
    pub open spec fn opener_of(self, store: KeyStoreView, seg: HlsSegmentView) -> Option<
        DecryptorView,
    > {
        match mpd_keys::picked(store, self.kid_of(seg)) {
            Some(k) if self.encrypts(seg) => Some(
                decryptor_of(k, self.tenc, iv_of(seg.key), seg.key is SampleAes),
            ),
            _ => None,
        }
    }

    /// Whether the key of a segment is missing.
    pub open spec fn lacks_key(self, store: KeyStoreView, seg: HlsSegmentView) -> bool {
        self.encrypts(seg) && mpd_keys::picked(store, self.kid_of(seg)) is None
    }
}

impl TrackSetup {
    /// Nothing.
    pub fn none() -> (r: Self)
        ensures
            r@ == (TrackSetupView { map_uri: None, tenc: None }),
    {
        TrackSetup { map_uri: None, tenc: None }
    }

    /// The identifier of the key of a segment.
    pub fn segment_kid(&self, seg: &HlsSegment) -> (r: Option<String>)
        ensures
            text::opt_text(r) == self@.kid_of(seg@),
    {
        match hls_key_kid(&seg.key) {
            Some(k) => Some(k),
            None => match &self.tenc {
                Some(t) => Some(text::clone_text(t.kid.as_str())),
                None => None,
            },
        }
    }

    fn default_iv_size(&self) -> (r: Option<u8>)
        ensures
            r == self@.iv_size(),
    {
        match &self.tenc {
            Some(t) => Some(t.iv_size),
            None => None,
        }
    }

    /// What opens a segment.
    pub fn decryptor_for_segment(
        &self,
        store: &KeyStore,
        seg: &HlsSegment,
        track: Fmp4TrackKind,
    ) -> (r: Result<Option<Decryptor>, Fmp4Error>)
        ensures
            match r {
                Ok(d) => {
                    &&& !self@.lacks_key(store@, seg@)
                    &&& aggregate::opener(d) == self@.opener_of(store@, seg@)
                },
                Err(e) => {
                    &&& self@.lacks_key(store@, seg@)
                    &&& e@ == (Fmp4ErrorView::NoKey { track, kid: self@.kid_of(seg@) })
                },
            },
    {
        let kid: Option<String> = self.segment_kid(seg);
        let sample_aes: bool = match &seg.key {
            HlsSegmentKey::SampleAes { .. } => true,
            _ => false,
        };
        let encrypted: bool = self.tenc.is_some() || match &seg.key {
            HlsSegmentKey::SampleAes { .. } => true,
            HlsSegmentKey::SampleAesCtr { .. } => true,
            _ => false,
        };
        match mpd_keys::pick_key(store, text::as_ref(&kid)) {
            Some(k) => {
                if encrypted {
                    Ok(
                        Some(
                            build_fmp4_decryptor(
                                k,
                                self.tenc.as_ref(),
                                hls_key_iv(&seg.key),
                                sample_aes,
                            ),
                        ),
                    )
                } else {
                    Ok(None)
                }
            },
            None => {
                if encrypted {
                    Err(Fmp4Error::NoKey { track, kid })
                } else {
                    Ok(None)
                }
            },
        }
    }
}

/// A segment as it was fetched.
pub struct DownloadedFmp4Segment {
    pub job: Fmp4Job,
    pub video: Vec<u8>,
    pub audio: Option<Vec<u8>>,
    pub subtitle: Option<Vec<u8>>,
}

/// What a value of [`DownloadedFmp4Segment`] holds.
pub struct FetchedView {
    pub job: Fmp4JobView,
    pub video: Seq<u8>,
    pub audio: Option<Seq<u8>>,
    pub subtitle: Option<Seq<u8>>,
}

impl View for DownloadedFmp4Segment {
    type V = FetchedView;

    open spec fn view(&self) -> FetchedView {
        FetchedView {
            job: self.job@,
            video: self.video@,
            audio: aggregate::opt_bytes(self.audio),
            subtitle: aggregate::opt_bytes(self.subtitle),
        }
    }
}

/// The pipeline of an fMP4 source behind the downloads.
pub struct Fmp4Context {
    pub keystore: KeyStore,
    pub video: TrackSetup,
    pub audio: TrackSetup,
    pub subtitle: TrackSetup,
    pub video_codec: VideoCodec,
    pub aac: Option<AacConfig>,
    pub buffer: Buffer,
    pub duration_ns: i64,
    pub video_line: Line,
    pub audio_line: Line,
    pub last_kids: TrackKids,
    pub last_v_tfdt: Option<u64>,
    pub last_a_tfdt: Option<u64>,
}

/// What a value of [`Fmp4Context`] holds.
#[verifier::ext_equal]
pub struct Fmp4View {
    pub store: KeyStoreView,
    pub video: TrackSetupView,
    pub audio: TrackSetupView,
    pub subtitle: TrackSetupView,
    pub video_codec: VideoCodec,
    pub aac: Option<AacConfig>,
    pub buffer: BufferView,
    pub duration_ns: i64,
    pub video_line: Line,
    pub audio_line: Line,
    pub last_kids: TrackKidsView,
    pub last_v_tfdt: Option<u64>,
    pub last_a_tfdt: Option<u64>,
}

impl View for Fmp4Context {
    type V = Fmp4View;

    open spec fn view(&self) -> Fmp4View {
        Fmp4View {
            store: self.keystore@,
            video: self.video@,
            audio: self.audio@,
            subtitle: self.subtitle@,
            video_codec: self.video_codec,
            aac: self.aac,
            buffer: self.buffer@,
            duration_ns: self.duration_ns,
            video_line: self.video_line,
            audio_line: self.audio_line,
            last_kids: self.last_kids@,
            last_v_tfdt: self.last_v_tfdt,
            last_a_tfdt: self.last_a_tfdt,
        }
    }
}

/// A timeline that starts at 0.
pub open spec fn fresh_line() -> Line {
    Line { origin: UNSET_ORIGIN, total: 0 }
}

/// The decode time of an optional segment.
pub open spec fn base_of(s: Option<SegmentView>) -> Option<u64> {
    match s {
        Some(x) => x.base_media_decode_time,
        None => None,
    }
}

/// The media of a segment once it was read and opened.
pub struct MediaParts {
    pub video: SegmentView,
    pub audio: Option<SegmentView>,
}

impl Fmp4View {
    /// With the frames so far muxed, where there is video.
    pub open spec fn flushed(self) -> Self {
        if self.buffer.video.len() == 0 {
            self
        } else {
            Fmp4View {
                buffer: self.buffer.flushed(self.duration_ns),
                duration_ns: 0,
                ..self
            }
        }
    }

    /// With a new timeline behind the frames so far.
    pub open spec fn at_boundary(self) -> Self {
        let s = self.flushed();
        Fmp4View {
            buffer: BufferView {
                discontinuity: true,
                subtitles: buffer::no_subtitles(),
                ..s.buffer
            },
            last_v_tfdt: None,
            last_a_tfdt: None,
            last_kids: TrackKidsView { subtitle: None, ..s.last_kids },
            video_line: fresh_line(),
            audio_line: fresh_line(),
            ..s
        }
    }

    /// The identifiers of the keys of a segment.
    pub open spec fn kids_of(self, job: Fmp4JobView) -> TrackKidsView {
        TrackKidsView {
            video: self.video.kid_of(job.video),
            audio: match job.audio {
                Some(a) => self.audio.kid_of(a),
                None => None,
            },
            subtitle: match job.subtitle {
                Some(s) => self.subtitle.kid_of(s),
                None => None,
            },
        }
    }

    /// Before a segment: one with another key is muxed apart, one of a new timeline starts anew.
    pub open spec fn before_segment(self, job: Fmp4JobView) -> Self {
        let kids = self.kids_of(job);
        let s = if self.last_kids.changed(kids) {
            self.flushed()
        } else {
            self
        };
        let broken = job.video.discontinuity || job.audio is Some && job.audio->0.discontinuity
            || job.subtitle is Some && job.subtitle->0.discontinuity;
        let t = if broken {
            s.at_boundary()
        } else {
            s
        };
        Fmp4View { last_kids: kids, ..t }
    }

    /// Why the keys of a segment do not fit fMP4.
    pub open spec fn wrong_key(job: Fmp4JobView) -> Option<Fmp4ErrorView> {
        if key_error(job.video.key) is Some {
            key_error(job.video.key)
        } else if job.audio is Some && key_error(job.audio->0.key) is Some {
            key_error(job.audio->0.key)
        } else if job.subtitle is Some {
            key_error(job.subtitle->0.key)
        } else {
            None
        }
    }

    /// The key that a segment lacks.
    pub open spec fn missing_key(self, job: Fmp4JobView) -> Option<Fmp4ErrorView> {
        if self.video.lacks_key(self.store, job.video) {
            Some(
                Fmp4ErrorView::NoKey {
                    track: Fmp4TrackKind::Video,
                    kid: self.video.kid_of(job.video),
                },
            )
        } else if job.audio is Some && self.audio.lacks_key(self.store, job.audio->0) {
            Some(
                Fmp4ErrorView::NoKey {
                    track: Fmp4TrackKind::Audio,
                    kid: self.audio.kid_of(job.audio->0),
                },
            )
        } else if job.subtitle is Some && self.subtitle.lacks_key(self.store, job.subtitle->0) {
            Some(
                Fmp4ErrorView::NoKey {
                    track: Fmp4TrackKind::Subtitle,
                    kid: self.subtitle.kid_of(job.subtitle->0),
                },
            )
        } else {
            None
        }
    }

    /// What is wrong with the media of a segment: both tracks are read before the frames of either
    /// are looked at.
    pub open spec fn media_error(self, seg: FetchedView) -> Option<Fmp4ErrorView> {
        match sample::segment_of(seg.video, self.video.iv_size()) {
            None => Some(Fmp4ErrorView::VideoUnreadable),
            Some(v) => match seg.audio {
                None => if buffer::whole(v) {
                    None
                } else {
                    Some(Fmp4ErrorView::VideoTruncated)
                },
                Some(b) => match sample::segment_of(b, self.audio.iv_size()) {
                    None => Some(Fmp4ErrorView::AudioUnreadable),
                    Some(a) => if !buffer::whole(v) {
                        Some(Fmp4ErrorView::VideoTruncated)
                    } else if !buffer::whole(a) {
                        Some(Fmp4ErrorView::AudioTruncated)
                    } else {
                        None
                    },
                },
            },
        }
    }

    /// The media of a segment, opened.
    pub open spec fn media_of(self, seg: FetchedView) -> MediaParts {
        MediaParts {
            video: fragment::opened(
                sample::segment_of(seg.video, self.video.iv_size())->0,
                self.video.opener_of(self.store, seg.job.video),
            ),
            audio: match seg.audio {
                None => None,
                Some(b) => Some(
                    fragment::opened(
                        sample::segment_of(b, self.audio.iv_size())->0,
                        match seg.job.audio {
                            Some(a) => self.audio.opener_of(self.store, a),
                            None => None,
                        },
                    ),
                ),
            },
        }
    }

    /// Before the frames of a segment: decode times that go back start a new timeline.
    pub open spec fn timed(self, m: MediaParts) -> Self {
        let v = m.video.base_media_decode_time;
        let a = base_of(m.audio);
        let s = if buffer::rewound(self.last_v_tfdt, v) || buffer::rewound(self.last_a_tfdt, a) {
            self.at_boundary()
        } else {
            self
        };
        Fmp4View { last_v_tfdt: v, last_a_tfdt: a, ..s }
    }

    /// With the frames of a segment behind those so far.
    pub open spec fn with_frames(self, m: MediaParts, duration_ns: i64) -> Self {
        let v = m.video.base_media_decode_time;
        let video = buffer::video_units(m.video, self.video_line.start(v), self.video_codec);
        let v_ticks = buffer::ticks_of(m.video.samples);
        let audio = match m.audio {
            Some(a) => buffer::audio_units(
                a,
                self.audio_line.start(a.base_media_decode_time),
                self.aac,
            ),
            None => Seq::empty(),
        };
        let a_ticks = match m.audio {
            Some(a) => buffer::ticks_of(a.samples),
            None => 0,
        };
        Fmp4View {
            video_line: self.video_line.anchored(v).extended(v_ticks),
            audio_line: match m.audio {
                Some(a) => self.audio_line.anchored(a.base_media_decode_time).extended(a_ticks),
                None => self.audio_line,
            },
            buffer: BufferView {
                video: self.buffer.video + buffer::video_behind(
                    self.buffer.video,
                    self.buffer.video_ticks,
                    video,
                ),
                audio: self.buffer.audio + buffer::audio_behind(
                    self.buffer.audio,
                    self.buffer.audio_ticks,
                    audio,
                ),
                video_ticks: time::sum64(self.buffer.video_ticks, v_ticks),
                audio_ticks: time::sum64(self.buffer.audio_ticks, a_ticks),
                ..self.buffer
            },
            duration_ns: time::duration_sum(self.duration_ns, duration_ns),
            ..self
        }
    }

    /// The cues of a segment.
    pub open spec fn cues_of(self, seg: FetchedView) -> Option<Seq<char>> {
        match seg.subtitle {
            None => None,
            Some(b) => Some(
                fragment::fragment_body(
                    b,
                    self.buffer.subtitles.duration_ns as int,
                    time::not_below_zero(seg.job.video.duration_ns) as int,
                    1_000,
                    match seg.job.subtitle {
                        Some(s) => self.subtitle.opener_of(self.store, s),
                        None => None,
                    },
                    self.subtitle.iv_size(),
                ),
            ),
        }
    }

    /// With the subtitles of a segment, and muxed if that is enough.
    pub open spec fn finished(self, seg: FetchedView) -> Self {
        let ns = seg.job.video.duration_ns;
        let s = Fmp4View { buffer: self.buffer.with_subtitle(self.cues_of(seg), ns), ..self };
        if s.duration_ns >= AGGREGATE_TARGET_S * SECOND || ns >= SHORT_SEG_THRESHOLD_S * SECOND {
            s.flushed()
        } else {
            s
        }
    }

    /// Why a segment cannot be taken.
    pub open spec fn error_of(self, seg: FetchedView) -> Option<Fmp4ErrorView> {
        if Self::wrong_key(seg.job) is Some {
            Self::wrong_key(seg.job)
        } else if self.missing_key(seg.job) is Some {
            self.missing_key(seg.job)
        } else {
            self.media_error(seg)
        }
    }

    /// What is left once a segment was taken or refused. One whose keys fit leaves its break
    /// behind even where its media is not readable.
    pub open spec fn with_segment(self, seg: FetchedView) -> Self {
        if Self::wrong_key(seg.job) is Some {
            self
        } else if self.error_of(seg) is Some {
            self.before_segment(seg.job)
        } else {
            let s = self.before_segment(seg.job);
            let m = s.media_of(seg);
            s.timed(m).with_frames(m, seg.job.video.duration_ns).finished(seg)
        }
    }
}

/// What opens a segment.
struct Fmp4Openers {
    video: Option<Decryptor>,
    audio: Option<Decryptor>,
    subtitle: Option<Decryptor>,
}

impl Fmp4Context {
    /// Whether the muxer can write.
    pub open spec fn wf(&self) -> bool {
        self.buffer.wf()
    }

    /// Muxes the frames so far, where there is video.
    pub fn flush(&mut self)
        requires
            old(self).wf(),
        ensures
            final(self)@ == old(self)@.flushed(),
            final(self).wf(),
    {
        assert(self@.buffer.video.len() == self.buffer.video@.len());
        if self.buffer.video.len() == 0 {
            return;
        }
        self.buffer.flush(self.duration_ns);
        self.duration_ns = 0;
        assert(self@ =~= old(self)@.flushed());
    }

    /// Starts a new timeline.
    pub fn mark_boundary(&mut self)
        requires
            old(self).wf(),
        ensures
            final(self)@ == old(self)@.at_boundary(),
            final(self).wf(),
    {
        self.flush();
        self.buffer.discontinuity = true;
        self.buffer.subtitles.clear();
        self.last_v_tfdt = None;
        self.last_a_tfdt = None;
        self.last_kids.subtitle = None;
        self.video_line = Line { origin: UNSET_ORIGIN, total: 0 };
        self.audio_line = Line { origin: UNSET_ORIGIN, total: 0 };
        assert(self@ =~= old(self)@.at_boundary());
    }

    fn kids_of_job(&self, job: &Fmp4Job) -> (r: TrackKids)
        ensures
            r@ == self@.kids_of(job@),
    {
        let audio: Option<String> = match &job.audio {
            Some(a) => self.audio.segment_kid(a),
            None => None,
        };
        let subtitle: Option<String> = match &job.subtitle {
            Some(s) => self.subtitle.segment_kid(s),
            None => None,
        };
        TrackKids { video: self.video.segment_kid(&job.video), audio, subtitle }
    }

    fn begin_segment(&mut self, job: &Fmp4Job)
        requires
            old(self).wf(),
        ensures
            final(self)@ == old(self)@.before_segment(job@),
            final(self).wf(),
    {
        let kids: TrackKids = self.kids_of_job(job);
        if self.last_kids.differs(&kids) {
            self.flush();
        }
        let audio_breaks: bool = match &job.audio {
            Some(a) => a.discontinuity,
            None => false,
        };
        let subtitle_breaks: bool = match &job.subtitle {
            Some(s) => s.discontinuity,
            None => false,
        };
        if job.video.discontinuity || audio_breaks || subtitle_breaks {
            self.mark_boundary();
        }
        self.last_kids = kids;
        assert(self@ =~= old(self)@.before_segment(job@));
    }

    fn check_keys(job: &Fmp4Job) -> (r: Result<(), Fmp4Error>)
        ensures
            match r {
                Ok(()) => Fmp4View::wrong_key(job@) is None,
                Err(e) => Fmp4View::wrong_key(job@) == Some(e@),
            },
    {
        if let Err(e) = ensure_fmp4_key(&job.video.key) {
            return Err(e);
        }
        if let Some(a) = &job.audio {
            if let Err(e) = ensure_fmp4_key(&a.key) {
                return Err(e);
            }
        }
        if let Some(s) = &job.subtitle {
            if let Err(e) = ensure_fmp4_key(&s.key) {
                return Err(e);
            }
        }
        Ok(())
    }

    fn openers(&self, job: &Fmp4Job) -> (r: Result<Fmp4Openers, Fmp4Error>)
        ensures
            match r {
                Ok(o) => {
                    &&& self@.missing_key(job@) is None
                    &&& aggregate::opener(o.video) == self@.video.opener_of(
                        self@.store,
                        job@.video,
                    )
                    &&& aggregate::opener(o.audio) == match job@.audio {
                        Some(a) => self@.audio.opener_of(self@.store, a),
                        None => None,
                    }
                    &&& aggregate::opener(o.subtitle) == match job@.subtitle {
                        Some(s) => self@.subtitle.opener_of(self@.store, s),
                        None => None,
                    }
                },
                Err(e) => self@.missing_key(job@) == Some(e@),
            },
    {
        let video: Option<Decryptor> = match self.video.decryptor_for_segment(
            &self.keystore,
            &job.video,
            Fmp4TrackKind::Video,
        ) {
            Ok(d) => d,
            Err(e) => return Err(e),
        };
        let audio: Option<Decryptor> = match &job.audio {
            Some(a) => match self.audio.decryptor_for_segment(
                &self.keystore,
                a,
                Fmp4TrackKind::Audio,
            ) {
                Ok(d) => d,
                Err(e) => return Err(e),
            },
            None => None,
        };
        let subtitle: Option<Decryptor> = match &job.subtitle {
            Some(s) => match self.subtitle.decryptor_for_segment(
                &self.keystore,
                s,
                Fmp4TrackKind::Subtitle,
            ) {
                Ok(d) => d,
                Err(e) => return Err(e),
            },
            None => None,
        };
        Ok(Fmp4Openers { video, audio, subtitle })
    }

    fn read_media(&self, seg: &DownloadedFmp4Segment, o: &Fmp4Openers) -> (r: Result<
        (ParsedSegment, Option<ParsedSegment>),
        Fmp4Error,
    >)
        requires
            aggregate::opener(o.video) == self@.video.opener_of(self@.store, seg@.job.video),
            aggregate::opener(o.audio) == match seg@.job.audio {
                Some(a) => self@.audio.opener_of(self@.store, a),
                None => None,
            },
        ensures
            match r {
                Ok(m) => {
                    &&& self@.media_error(seg@) is None
                    &&& m.0@ == self@.media_of(seg@).video
                    &&& opt_parsed(m.1) == self@.media_of(seg@).audio
                    &&& buffer::whole(m.0@)
                    &&& m.1 is Some ==> buffer::whole(m.1->0@)
                },
                Err(e) => self@.media_error(seg@) == Some(e@),
            },
    {
        let mut v: ParsedSegment = match sample::parse_media_segment_with_default_iv_size(
            seg.video.as_slice(),
            self.video.default_iv_size(),
        ) {
            Some(s) => s,
            None => return Err(Fmp4Error::VideoUnreadable),
        };
        let read_audio: Option<ParsedSegment> = match &seg.audio {
            None => None,
            Some(b) => match sample::parse_media_segment_with_default_iv_size(
                b.as_slice(),
                self.audio.default_iv_size(),
            ) {
                Some(s) => Some(s),
                None => return Err(Fmp4Error::AudioUnreadable),
            },
        };
        if !buffer::is_whole(&v) {
            return Err(Fmp4Error::VideoTruncated);
        }
        let ghost read = v@;
        aggregate::open_segment(&mut v, &o.video);
        proof {
            aggregate::lemma_opened_is_whole(read, aggregate::opener(o.video));
        }
        let audio: Option<ParsedSegment> = match read_audio {
            None => None,
            Some(s) => {
                let mut a: ParsedSegment = s;
                if !buffer::is_whole(&a) {
                    return Err(Fmp4Error::AudioTruncated);
                }
                let ghost closed = a@;
                aggregate::open_segment(&mut a, &o.audio);
                proof {
                    aggregate::lemma_opened_is_whole(closed, aggregate::opener(o.audio));
                }
                Some(a)
            },
        };
        Ok((v, audio))
    }

    fn set_times(&mut self, v: &ParsedSegment, a: &Option<ParsedSegment>)
        requires
            old(self).wf(),
        ensures
            final(self)@ == old(self)@.timed(MediaParts { video: v@, audio: opt_parsed(*a) }),
            final(self).wf(),
    {
        let audio_time: Option<u64> = match a {
            Some(s) => s.base_media_decode_time,
            None => None,
        };
        if buffer::timeline_rewound(self.last_v_tfdt, v.base_media_decode_time)
            || buffer::timeline_rewound(self.last_a_tfdt, audio_time) {
            self.mark_boundary();
        }
        self.last_v_tfdt = v.base_media_decode_time;
        self.last_a_tfdt = audio_time;
    }

    fn append_frames(&mut self, v: &ParsedSegment, a: &Option<ParsedSegment>, duration_ns: i64)
        requires
            buffer::whole(v@),
            a is Some ==> buffer::whole(a->0@),
        ensures
            final(self)@ == old(self)@.with_frames(
                (MediaParts { video: v@, audio: opt_parsed(*a) }),
                duration_ns,
            ),
            final(self).wf() == old(self).wf(),
    {
        let ghost m = MediaParts { video: v@, audio: opt_parsed(*a) };
        let ghost before = self@;
        let start: u64 = self.video_line.place(v.base_media_decode_time);
        let mut video: Vec<AccessUnit> = buffer::make_video_units(v, start, self.video_codec);
        let v_ticks: u64 = buffer::total_ticks(v);
        self.video_line.extend(v_ticks);
        let mut audio: Vec<AudioUnit> = Vec::new();
        let mut a_ticks: u64 = 0;
        assert(muxer::audio_views(audio@) =~= Seq::<AudioUnitView>::empty());
        if let Some(s) = a {
            let at: u64 = self.audio_line.place(s.base_media_decode_time);
            audio = buffer::make_audio_units(s, at, &self.aac);
            a_ticks = buffer::total_ticks(s);
            self.audio_line.extend(a_ticks);
        }
        let ghost old_v = self.buffer.video@;
        let ghost old_a = self.buffer.audio@;
        buffer::align_video(self.buffer.video.as_slice(), self.buffer.video_ticks, &mut video);
        buffer::align_audio(self.buffer.audio.as_slice(), self.buffer.audio_ticks, &mut audio);
        let ghost new_v = video@;
        let ghost new_a = audio@;
        self.buffer.video.append(&mut video);
        self.buffer.audio.append(&mut audio);
        assert(muxer::video_views(self.buffer.video@) =~= muxer::video_views(old_v)
            + muxer::video_views(new_v));
        assert(muxer::audio_views(self.buffer.audio@) =~= muxer::audio_views(old_a)
            + muxer::audio_views(new_a));
        self.buffer.video_ticks = time::add64(self.buffer.video_ticks, v_ticks);
        self.buffer.audio_ticks = time::add64(self.buffer.audio_ticks, a_ticks);
        self.duration_ns = time::add_durations(self.duration_ns, duration_ns);
        assert(self@ =~= before.with_frames(m, duration_ns));
    }

    fn finish_segment(&mut self, seg: &DownloadedFmp4Segment, d: &Option<Decryptor>)
        requires
            old(self).wf(),
            aggregate::opener(*d) == match seg@.job.subtitle {
                Some(s) => old(self)@.subtitle.opener_of(old(self)@.store, s),
                None => None,
            },
        ensures
            final(self)@ == old(self)@.finished(seg@),
            final(self).wf(),
    {
        let ns: i64 = seg.job.video.duration_ns;
        match &seg.subtitle {
            Some(b) => {
                self.buffer.subtitles.append_fragment(
                    b.as_slice(),
                    ns,
                    1_000,
                    d.as_ref(),
                    self.subtitle.default_iv_size(),
                );
            },
            None => {
                self.buffer.subtitles.append_empty(ns);
            },
        }
        let ghost s = Fmp4View {
            buffer: old(self)@.buffer.with_subtitle(old(self)@.cues_of(seg@), ns),
            ..old(self)@
        };
        assert(self@ =~= s);
        if self.duration_ns >= (AGGREGATE_TARGET_S * SECOND) as i64 || ns >= (SHORT_SEG_THRESHOLD_S
            * SECOND) as i64 {
            self.flush();
        }
    }

    /// Takes a segment.
    pub fn process_fmp4_segment(&mut self, seg: &DownloadedFmp4Segment) -> (r: Result<
        (),
        Fmp4Error,
    >)
        requires
            old(self).wf(),
        ensures
            final(self)@ == old(self)@.with_segment(seg@),
            final(self).wf(),
            match r {
                Ok(()) => old(self)@.error_of(seg@) is None,
                Err(e) => old(self)@.error_of(seg@) == Some(e@),
            },
    {
        if let Err(e) = Self::check_keys(&seg.job) {
            return Err(e);
        }
        self.begin_segment(&seg.job);
        proof {
            lemma_begin(old(self)@, seg@.job);
            lemma_same_errors(self@, old(self)@, seg@);
        }
        let o: Fmp4Openers = match self.openers(&seg.job) {
            Ok(o) => o,
            Err(e) => return Err(e),
        };
        let (v, a) = match self.read_media(seg, &o) {
            Ok(m) => m,
            Err(e) => return Err(e),
        };
        let ghost s = self@;
        let ghost m = s.media_of(seg@);
        self.set_times(&v, &a);
        self.append_frames(&v, &a, seg.job.video.duration_ns);
        assert(self@.subtitle == s.subtitle && self@.store == s.store);
        self.finish_segment(seg, &o.subtitle);
        Ok(())
    }

    /// Processes the segment of a batch that is up, if it is there.
    pub fn advance(&mut self, batch: &mut Batch<DownloadedFmp4Segment>, cancelled: bool) -> (r:
        Fmp4Advance)
        requires
            old(self).wf(),
            old(batch).wf(),
        ensures
            final(self).wf(),
            final(batch).wf(),
            ({
                let s = old(self)@;
                let b = old(batch)@;
                let up = b.next < b.order.len();
                let e = b.expected();
                let there = up && !b.failed.contains(e) && !cancelled && b.pending.dom().contains(
                    e,
                );
                let took = BatchView { pending: b.pending.remove(e), ..b };
                match r {
                    Fmp4Advance::Wait => {
                        &&& !there
                        &&& !(up && b.failed.contains(e))
                        &&& final(self)@ == s
                        &&& final(batch)@ == b
                    },
                    Fmp4Advance::Lost(n) => {
                        &&& up
                        &&& b.failed.contains(e)
                        &&& n == e
                        &&& final(self)@ == s
                        &&& final(batch)@ == b
                    },
                    Fmp4Advance::Processed(n) => {
                        &&& there
                        &&& n == e
                        &&& s.error_of(b.pending[e]@) is None
                        &&& final(self)@ == s.with_segment(b.pending[e]@)
                        &&& final(batch)@ == took.advanced()
                    },
                    Fmp4Advance::Refused(n, x) => {
                        &&& there
                        &&& n == e
                        &&& s.error_of(b.pending[e]@) == Some(x@)
                        &&& final(self)@ == s.with_segment(b.pending[e]@)
                        &&& final(batch)@ == took
                    },
                }
            }),
    {
        match batch.step(cancelled) {
            Step::Wait => Fmp4Advance::Wait,
            Step::Lost(n) => Fmp4Advance::Lost(n),
            Step::Process(n, seg) => match self.process_fmp4_segment(&seg) {
                Ok(()) => {
                    batch.processed();
                    Fmp4Advance::Processed(n)
                },
                Err(e) => Fmp4Advance::Refused(n, e),
            },
        }
    }

    /// Takes another init segment for a track, or none.
    pub fn set_track(&mut self, track: Fmp4TrackKind, map_uri: Option<String>, init: Option<&[u8]>)
        ensures
            ({
                let t = TrackSetupView {
                    map_uri: text::opt_text(map_uri),
                    tenc: mpd_session::tenc_in(mpd_session::opt_slice(init)),
                };
                final(self)@ == match track {
                    Fmp4TrackKind::Video => Fmp4View { video: t, ..old(self)@ },
                    Fmp4TrackKind::Audio => Fmp4View {
                        audio: t,
                        aac: if init is Some && old(self)@.buffer.muxer.audio_codec == Some(
                            AudioCodec::AacAdts,
                        ) {
                            aac::aac_in_init(init->0@)
                        } else {
                            old(self)@.aac
                        },
                        ..old(self)@
                    },
                    Fmp4TrackKind::Subtitle => Fmp4View { subtitle: t, ..old(self)@ },
                }
            }),
            final(self).wf() == old(self).wf(),
    {
        let tenc: Option<TrackEncryption> = match init {
            Some(b) => TrackEncryption::find_in_init(b),
            None => None,
        };
        let t = TrackSetup { map_uri, tenc };
        match track {
            Fmp4TrackKind::Video => {
                self.video = t;
            },
            Fmp4TrackKind::Audio => {
                self.audio = t;
                if let Some(b) = init {
                    if let Some(AudioCodec::AacAdts) = self.buffer.muxer.audio_kind() {
                        self.aac = AacConfig::find_in_init(b);
                    }
                }
            },
            Fmp4TrackKind::Subtitle => {
                self.subtitle = t;
            },
        }
    }

    /// The identifiers of the keys that jobs need.
    pub fn kids_of_jobs(&self, jobs: &[Fmp4Job]) -> (r: Vec<String>)
        ensures
            text::texts(r@) == needed_kids(
                self@,
                hls_source::fmp4_job_views(jobs@),
                jobs@.len() as int,
            ),
    {
        let ghost all = hls_source::fmp4_job_views(jobs@);
        let mut out: Vec<String> = Vec::new();
        assert(text::texts(out@) =~= Seq::<Seq<char>>::empty());
        for i in 0..jobs.len()
            invariant
                all == hls_source::fmp4_job_views(jobs@),
                text::texts(out@) == needed_kids(self@, all, i as int),
        {
            assert(all[i as int] == jobs@[i as int]@);
            let kids: TrackKids = self.kids_of_job(&jobs[i]);
            push_kid(&mut out, kids.video);
            push_kid(&mut out, kids.audio);
            push_kid(&mut out, kids.subtitle);
        }
        out
    }

    /// Hands out what was muxed.
    pub fn take_published(&mut self) -> (r: Vec<Published>)
        ensures
            buffer::published_views(r@) == old(self)@.buffer.out,
            final(self)@ == (Fmp4View {
                buffer: BufferView { out: Seq::empty(), ..old(self)@.buffer },
                ..old(self)@
            }),
            final(self).wf() == old(self).wf(),
    {
        self.buffer.take_published()
    }
}

/// A list with one more identifier, if there is one.
pub open spec fn with_opt(list: Seq<Seq<char>>, kid: Option<Seq<char>>) -> Seq<Seq<char>> {
    match kid {
        Some(k) => list.push(k),
        None => list,
    }
}

fn push_kid(out: &mut Vec<String>, kid: Option<String>)
    ensures
        text::texts(final(out)@) == with_opt(text::texts(old(out)@), text::opt_text(kid)),
{
    if let Some(k) = kid {
        let ghost before = out@;
        out.push(k);
        assert(text::texts(out@) =~= text::texts(before).push(k@));
    }
}

/// The identifiers of the keys that the first `n` jobs need.
pub open spec fn needed_kids(c: Fmp4View, jobs: Seq<Fmp4JobView>, n: int) -> Seq<Seq<char>>
    decreases n,
{
    if n <= 0 {
        Seq::empty()
    } else {
        let k = c.kids_of(jobs[n - 1]);
        with_opt(with_opt(with_opt(needed_kids(c, jobs, n - 1), k.video), k.audio), k.subtitle)
    }
}

/// What became of the segment that was up.
#[derive(Debug)]
pub enum Fmp4Advance {
    /// It is not there yet.
    Wait,
    /// It could not be fetched.
    Lost(u64),
    /// It was taken.
    Processed(u64),
    /// It cannot be taken.
    Refused(u64, Fmp4Error),
}

/// What an optional segment holds.
pub open spec fn opt_parsed(s: Option<ParsedSegment>) -> Option<SegmentView> {
    match s {
        Some(x) => Some(x@),
        None => None,
    }
}

spec fn same_tracks(a: Fmp4View, b: Fmp4View) -> bool {
    &&& a.video == b.video
    &&& a.audio == b.audio
    &&& a.subtitle == b.subtitle
    &&& a.store == b.store
}

proof fn lemma_same_errors(a: Fmp4View, b: Fmp4View, seg: FetchedView)
    requires
        same_tracks(a, b),
    ensures
        a.missing_key(seg.job) == b.missing_key(seg.job),
        a.media_error(seg) == b.media_error(seg),
{
}

proof fn lemma_flush(c: Fmp4View)
    ensures
        same_tracks(c.flushed(), c),
        c.buffer.out.is_prefix_of(c.flushed().buffer.out),
        c.flushed().buffer.video.len() == 0,
{
}

proof fn lemma_boundary(c: Fmp4View)
    ensures
        same_tracks(c.at_boundary(), c),
        c.buffer.out.is_prefix_of(c.at_boundary().buffer.out),
        c.at_boundary().buffer.video.len() == 0,
{
    lemma_flush(c);
}

proof fn lemma_begin(c: Fmp4View, job: Fmp4JobView)
    ensures
        same_tracks(c.before_segment(job), c),
        c.buffer.out.is_prefix_of(c.before_segment(job).buffer.out),
        c.last_kids.changed(c.kids_of(job)) ==> c.before_segment(job).buffer.video.len() == 0,
{
    let s = if c.last_kids.changed(c.kids_of(job)) {
        c.flushed()
    } else {
        c
    };
    lemma_flush(c);
    lemma_boundary(s);
}

/// What the init segments of a source state.
pub struct Fmp4Setup {
    pub video: VideoInit,
    pub video_timescale: u32,
    pub audio_codec: Option<AudioCodec>,
    pub audio_timescale: u32,
    pub audio: AudioInit,
    pub subtitle_tenc: Option<TrackEncryption>,
    /// The identifiers of the keys that are needed.
    pub required: Vec<String>,
}

/// The identifiers that a source needs: those of its init segments, then those of its playlists.
pub open spec fn required_kids(
    input: InputView,
    v: Option<TrackEncryptionView>,
    a: Option<TrackEncryptionView>,
    s: Option<TrackEncryptionView>,
) -> Seq<Seq<char>> {
    let init = with_opt(
        with_opt(with_opt(Seq::empty(), mpd_keys::tenc_kid(v)), mpd_keys::tenc_kid(a)),
        mpd_keys::tenc_kid(s),
    );
    init + advertised(input.video) + opt_advertised(input.audio) + opt_advertised(input.subtitle)
}

/// The identifiers that an optional playlist states.
pub open spec fn opt_advertised(p: Option<MediaView>) -> Seq<Seq<char>> {
    match p {
        Some(m) => advertised(m),
        None => Seq::empty(),
    }
}

fn copy_kid(t: &Option<TrackEncryption>) -> (r: Option<String>)
    ensures
        text::opt_text(r) == mpd_keys::tenc_kid(init::opt_tenc(*t)),
{
    match t {
        Some(x) => Some(text::clone_text(x.kid.as_str())),
        None => None,
    }
}

fn append_texts(out: &mut Vec<String>, more: Vec<String>)
    ensures
        text::texts(final(out)@) == text::texts(old(out)@) + text::texts(more@),
{
    let mut more = more;
    let ghost a = out@;
    let ghost b = more@;
    out.append(&mut more);
    assert(text::texts(out@) =~= text::texts(a) + text::texts(b));
}

impl Fmp4Setup {
    /// Reads the init segments of a source with these codecs. There is none without the timescale
    /// of the video.
    pub fn read(
        selected: &SelectedHlsInput,
        codecs: &str,
        vinit: &[u8],
        ainit: Option<&[u8]>,
        sinit: Option<&[u8]>,
    ) -> (r: Option<Self>)
        ensures
            match r {
                None => mdhd::timescale_in_init(vinit@) is None,
                Some(s) => {
                    &&& mdhd::timescale_in_init(vinit@) == Some(s.video_timescale)
                    &&& s.video.codec == ts::video_codec_of(codecs@)
                    &&& s.video.params@ == init::params_in(vinit@, s.video.codec)
                    &&& s.video.dovi == dvcc::dovi_in_init(vinit@)
                    &&& init::opt_tenc(s.video.tenc) == tenc::tenc_in_init(vinit@)
                    &&& s.audio_codec == if ainit is Some {
                        Some(init::audio_codec_in(text::lowered(codecs@)))
                    } else {
                        None
                    }
                    &&& s.audio_timescale == match ainit {
                        Some(b) => match mdhd::timescale_in_init(b@) {
                            Some(t) => t,
                            None => init::DEFAULT_AUDIO_TIMESCALE,
                        },
                        None => init::DEFAULT_AUDIO_TIMESCALE,
                    }
                    &&& s.audio.aac == if s.audio_codec == Some(AudioCodec::AacAdts) {
                        aac::aac_in_init(ainit->0@)
                    } else {
                        None
                    }
                    &&& init::opt_tenc(s.audio.tenc) == mpd_session::tenc_in(
                        mpd_session::opt_slice(ainit),
                    )
                    &&& init::opt_tenc(s.subtitle_tenc) == mpd_session::tenc_in(
                        mpd_session::opt_slice(sinit),
                    )
                    &&& text::texts(s.required@) == required_kids(
                        selected@,
                        init::opt_tenc(s.video.tenc),
                        init::opt_tenc(s.audio.tenc),
                        init::opt_tenc(s.subtitle_tenc),
                    )
                },
            },
    {
        let video_timescale: u32 = match mdhd::timescale_from_init(vinit) {
            Some(t) => t,
            None => return None,
        };
        let video: VideoInit = init::read_video_init(vinit, codecs);
        let mut audio_codec: Option<AudioCodec> = None;
        let mut audio_timescale: u32 = init::DEFAULT_AUDIO_TIMESCALE;
        let mut audio = AudioInit { aac: None, tenc: None };
        if let Some(b) = ainit {
            let c: AudioCodec = detect_audio_codec(codecs);
            audio_codec = Some(c);
            if let Some(t) = mdhd::timescale_from_init(b) {
                audio_timescale = t;
            }
            audio = init::read_audio_init(b, c);
        }
        let subtitle_tenc: Option<TrackEncryption> = match sinit {
            Some(b) => TrackEncryption::find_in_init(b),
            None => None,
        };
        let mut required: Vec<String> = Vec::new();
        assert(text::texts(required@) =~= Seq::<Seq<char>>::empty());
        push_kid(&mut required, copy_kid(&video.tenc));
        push_kid(&mut required, copy_kid(&audio.tenc));
        push_kid(&mut required, copy_kid(&subtitle_tenc));
        append_texts(&mut required, playlist_advertised_kids(&selected.video));
        let ghost before_audio = text::texts(required@);
        if let Some(p) = &selected.audio {
            append_texts(&mut required, playlist_advertised_kids(p));
        }
        assert(text::texts(required@) =~= before_audio + opt_advertised(selected@.audio));
        let ghost before_subtitle = text::texts(required@);
        if let Some(p) = &selected.subtitle {
            append_texts(&mut required, playlist_advertised_kids(p));
        }
        assert(text::texts(required@) =~= before_subtitle + opt_advertised(selected@.subtitle));
        Some(
            Fmp4Setup {
                video,
                video_timescale,
                audio_codec,
                audio_timescale,
                audio,
                subtitle_tenc,
                required,
            },
        )
    }

    /// Starts a source behind the timelines of an earlier run.
    pub fn start(
        self,
        selected: &SelectedHlsInput,
        keystore: KeyStore,
        least_cts: Option<i64>,
        video_line: Line,
        audio_line: Line,
    ) -> (r: Fmp4Context)
        requires
            self.video_timescale > 0,
            self.audio_timescale > 0,
        ensures
            r.wf(),
            r@ == (Fmp4View {
                store: keystore@,
                video: TrackSetupView {
                    map_uri: selected@.video.map_uri,
                    tenc: init::opt_tenc(self.video.tenc),
                },
                audio: TrackSetupView {
                    map_uri: opt_map(selected@.audio),
                    tenc: init::opt_tenc(self.audio.tenc),
                },
                subtitle: TrackSetupView {
                    map_uri: opt_map(selected@.subtitle),
                    tenc: init::opt_tenc(self.subtitle_tenc),
                },
                video_codec: self.video.codec,
                aac: self.audio.aac,
                buffer: BufferView::empty(r@.buffer.muxer),
                duration_ns: 0,
                video_line,
                audio_line,
                last_kids: TrackKidsView { video: None, audio: None, subtitle: None },
                last_v_tfdt: None,
                last_a_tfdt: None,
            }),
            ({
                let m = r@.buffer.muxer;
                &&& m.param_sets == self.video.params@.flat()
                &&& m.video_codec == self.video.codec
                &&& m.dovi == self.video.dovi
                &&& m.audio_codec == self.audio_codec
                &&& m.audio_timescale == self.audio_timescale
                &&& m.clock.timescale == self.video_timescale
                &&& m.clock.base_offset_90k == init::START_BUFFER_90K
                &&& m.clock.cts_shift == match least_cts {
                    Some(c) if c < 0 => -c as u64,
                    _ => 0,
                }
                &&& m.counters == Map::<u16, u8>::empty()
            }),
    {
        let muxer: TsMuxer = init::make_muxer(
            &self.video,
            self.audio_codec,
            self.audio_timescale,
            self.video_timescale,
            least_cts,
        );
        let video_codec: VideoCodec = self.video.codec;
        Fmp4Context {
            keystore,
            video: TrackSetup {
                map_uri: text::clone_opt(&selected.video.map_uri),
                tenc: self.video.tenc,
            },
            audio: TrackSetup { map_uri: copy_map(&selected.audio), tenc: self.audio.tenc },
            subtitle: TrackSetup {
                map_uri: copy_map(&selected.subtitle),
                tenc: self.subtitle_tenc,
            },
            video_codec,
            aac: self.audio.aac,
            buffer: Buffer::new(muxer),
            duration_ns: 0,
            video_line,
            audio_line,
            last_kids: TrackKids { video: None, audio: None, subtitle: None },
            last_v_tfdt: None,
            last_a_tfdt: None,
        }
    }
}

/// Where the init segment of an optional playlist is.
pub open spec fn opt_map(p: Option<MediaView>) -> Option<Seq<char>> {
    match p {
        Some(m) => m.map_uri,
        None => None,
    }
}

fn copy_map(p: &Option<HlsMediaPlaylist>) -> (r: Option<String>)
    ensures
        text::opt_text(r) == opt_map(hls_source::opt_media(*p)),
{
    match p {
        Some(m) => text::clone_opt(&m.map_uri),
        None => None,
    }
}

/// Where the init segment of an optional playlist is.
pub fn map_of(p: &Option<HlsMediaPlaylist>) -> (r: Option<&str>)
    ensures
        text::ref_text(r) == opt_map(hls_source::opt_media(*p)),
{
    match p {
        Some(m) => text::as_ref(&m.map_uri),
        None => None,
    }
}

proof fn lemma_finish(c: Fmp4View, seg: FetchedView)
    ensures
        c.buffer.out.is_prefix_of(c.finished(seg).buffer.out),
{
    let ns = seg.job.video.duration_ns;
    let s = Fmp4View { buffer: c.buffer.with_subtitle(c.cues_of(seg), ns), ..c };
    lemma_flush(s);
}

/// Nothing that was muxed is lost: a segment only appends to the output.
pub proof fn law_output_only_grows(c: Fmp4View, seg: FetchedView)
    ensures
        c.buffer.out.is_prefix_of(c.with_segment(seg).buffer.out),
{
    lemma_begin(c, seg.job);
    let s = c.before_segment(seg.job);
    let m = s.media_of(seg);
    lemma_boundary(s);
    assert(s.buffer.out.is_prefix_of(s.timed(m).buffer.out));
    let f = s.timed(m).with_frames(m, seg.job.video.duration_ns);
    assert(f.buffer.out == s.timed(m).buffer.out);
    lemma_finish(f, seg);
}

/// Frames that were opened with different keys never share a segment: where a key changes, the
/// frames so far are muxed before those of the segment come.
pub proof fn law_keys_do_not_mix(c: Fmp4View, job: Fmp4JobView)
    requires
        c.last_kids.changed(c.kids_of(job)),
    ensures
        c.before_segment(job).buffer.video.len() == 0,
{
    lemma_begin(c, job);
}

/// A segment whose key is missing is refused, and none of it is muxed: neither its frames nor any
/// output made of them.
pub proof fn law_unkeyed_segment_is_not_muxed(c: Fmp4View, seg: FetchedView)
    requires
        Fmp4View::wrong_key(seg.job) is None,
        c.video.lacks_key(c.store, seg.job.video) || seg.job.audio is Some && c.audio.lacks_key(
            c.store,
            seg.job.audio->0,
        ),
    ensures
        c.error_of(seg) matches Some(e) && e is NoKey,
        c.with_segment(seg) == c.before_segment(seg.job),
        c.with_segment(seg).buffer.video.is_prefix_of(c.buffer.video),
        c.with_segment(seg).buffer.out == c.buffer.out || c.with_segment(seg).buffer.out
            == c.flushed().buffer.out,
{
    lemma_begin(c, seg.job);
}

/// Frames are muxed once they last 8 seconds, or once a segment lasts 4 by itself, and not before.
pub proof fn law_frames_are_muxed_when_long(c: Fmp4View, seg: FetchedView)
    requires
        c.buffer.video.len() > 0,
    ensures
        ({
            let s = c.finished(seg);
            let long = c.duration_ns >= 8_000_000_000 || seg.job.video.duration_ns >= 4_000_000_000;
            &&& long ==> {
                &&& s.buffer.out.len() == c.buffer.out.len() + 1
                &&& s.buffer.out.last().duration_ns == c.duration_ns
                &&& s.buffer.out.last().data == c.buffer.muxer.segment(
                    c.buffer.video,
                    c.buffer.audio,
                ).bytes
                &&& s.buffer.video.len() == 0 && s.buffer.audio.len() == 0
            }
            &&& !long ==> s.buffer.out == c.buffer.out && s.buffer.video == c.buffer.video
                && s.buffer.audio == c.buffer.audio && s.duration_ns == c.duration_ns
        }),
{
}

/// The frames of a segment go behind those so far: as many as it has samples, at their times.
pub proof fn law_frames_go_behind(c: Fmp4View, m: MediaParts, duration_ns: i64)
    requires
        i64::MIN <= c.duration_ns + duration_ns <= i64::MAX,
    ensures
        ({
            let s = c.with_frames(m, duration_ns);
            let n = c.buffer.video.len();
            &&& s.buffer.video.len() == n + m.video.samples.len()
            &&& s.buffer.video.take(n as int) == c.buffer.video
            &&& s.duration_ns == c.duration_ns + duration_ns
            &&& m.audio matches Some(a) ==> s.buffer.audio.len() == c.buffer.audio.len()
                + a.samples.len()
            &&& m.audio is None ==> s.buffer.audio == c.buffer.audio
            &&& n == 0 ==> s.buffer.video == buffer::video_units(
                m.video,
                c.video_line.start(m.video.base_media_decode_time),
                c.video_codec,
            )
        }),
{
    let s = c.with_frames(m, duration_ns);
    let n = c.buffer.video.len();
    assert(s.buffer.video.take(n as int) =~= c.buffer.video);
    if n == 0 {
        assert(s.buffer.video =~= buffer::video_units(
            m.video,
            c.video_line.start(m.video.base_media_decode_time),
            c.video_codec,
        ));
    }
    if m.audio is None {
        assert(s.buffer.audio =~= c.buffer.audio);
    }
}

} // verus!
