//! A parser for HLS playlists: variants and renditions of a master playlist, segments and keys of
//! a media playlist.

use vstd::prelude::*;

use crate::crypto::playready;
use crate::mp4::tenc;
use crate::text;
use crate::time;
use crate::web;
use crate::web::{UrlError, UrlErrorView};

verus! {

/// Why a playlist is refused.
#[derive(Debug, Clone, PartialEq, Eq)]
pub enum HlsError {
    NotPlaylist,
    BaseUrl { url: String, reason: String },
    RelativeUrl { url: String, reason: String },
    MissingKeyUri,
    IvLength,
    IvDigits(String),
    IvTooLong,
}

/// What a value of [`HlsError`] holds.
pub enum HlsErrorView {
    NotPlaylist,
    BaseUrl { url: Seq<char>, reason: Seq<char> },
    RelativeUrl { url: Seq<char>, reason: Seq<char> },
    MissingKeyUri,
    IvLength,
    IvDigits(Seq<char>),
    IvTooLong,
}

impl View for HlsError {
    type V = HlsErrorView;

    open spec fn view(&self) -> HlsErrorView {
        match self {
            HlsError::NotPlaylist => HlsErrorView::NotPlaylist,
            HlsError::BaseUrl { url, reason } => HlsErrorView::BaseUrl {
                url: url@,
                reason: reason@,
            },
            HlsError::RelativeUrl { url, reason } => HlsErrorView::RelativeUrl {
                url: url@,
                reason: reason@,
            },
            HlsError::MissingKeyUri => HlsErrorView::MissingKeyUri,
            HlsError::IvLength => HlsErrorView::IvLength,
            HlsError::IvDigits(s) => HlsErrorView::IvDigits(s@),
            HlsError::IvTooLong => HlsErrorView::IvTooLong,
        }
    }
}

impl HlsErrorView {
    /// The error in words.
    pub open spec fn text(self) -> Seq<char> {
        match self {
            HlsErrorView::NotPlaylist => "not an HLS playlist"@,
            HlsErrorView::BaseUrl { url, reason } => "invalid HLS URL "@ + url + ": "@ + reason,
            HlsErrorView::RelativeUrl { url, reason } => "invalid HLS relative URL "@ + url + ": "@
                + reason,
            HlsErrorView::MissingKeyUri => "HLS AES-128 key is missing URI"@,
            HlsErrorView::IvLength => "invalid HLS IV hex length"@,
            HlsErrorView::IvDigits(s) => "invalid HLS IV: "@ + s,
            HlsErrorView::IvTooLong => "HLS IV is longer than 16 bytes"@,
        }
    }
}

impl HlsError {
    /// The error in words.
    pub fn message(&self) -> (r: String)
        ensures
            r@ == self@.text(),
    {
        match self {
            HlsError::NotPlaylist => text::clone_text("not an HLS playlist"),
            HlsError::BaseUrl { url, reason } => {
                let mut out: String = text::clone_text("invalid HLS URL ");
                text::push_str(&mut out, url.as_str());
                text::push_str(&mut out, ": ");
                text::push_str(&mut out, reason.as_str());
                out
            },
            HlsError::RelativeUrl { url, reason } => {
                let mut out: String = text::clone_text("invalid HLS relative URL ");
                text::push_str(&mut out, url.as_str());
                text::push_str(&mut out, ": ");
                text::push_str(&mut out, reason.as_str());
                out
            },
            HlsError::MissingKeyUri => text::clone_text("HLS AES-128 key is missing URI"),
            HlsError::IvLength => text::clone_text("invalid HLS IV hex length"),
            HlsError::IvDigits(s) => {
                let mut out: String = text::clone_text("invalid HLS IV: ");
                text::push_str(&mut out, s.as_str());
                out
            },
            HlsError::IvTooLong => text::clone_text("HLS IV is longer than 16 bytes"),
        }
    }
}

/// A URL relative to that of the playlist.
pub open spec fn resolved(base: Seq<char>, path: Seq<char>) -> Result<Seq<char>, HlsErrorView> {
    match web::resolved(base, path) {
        Ok(u) => Ok(u),
        Err(UrlErrorView::Base(e)) => Err(HlsErrorView::BaseUrl { url: base, reason: e }),
        Err(UrlErrorView::Path(e)) => Err(HlsErrorView::RelativeUrl { url: path, reason: e }),
    }
}

/// The URL of a key: data and other absolute URLs stay as they are.
pub open spec fn resolved_key(base: Seq<char>, uri: Seq<char>) -> Result<Seq<char>, HlsErrorView> {
    if "data:"@.is_prefix_of(uri) || text::contains(uri, "://"@) {
        Ok(uri)
    } else {
        resolved(base, uri)
    }
}

/// The pieces of an attribute list from `i` on, where the current piece began at `start`. Commas
/// inside quotes do not divide.
pub open spec fn pieces_from(s: Seq<char>, start: int, i: int, quoted: bool) -> Seq<Seq<char>>
    decreases s.len() - i,
{
    if i < 0 || i >= s.len() {
        seq![s.skip(start)]
    } else if s[i] == '"' {
        pieces_from(s, start, i + 1, !quoted)
    } else if s[i] == ',' && !quoted {
        seq![s.subrange(start, i)] + pieces_from(s, i + 1, i + 1, quoted)
    } else {
        pieces_from(s, start, i + 1, quoted)
    }
}

/// The pieces of an attribute list.
pub open spec fn pieces_of(s: Seq<char>) -> Seq<Seq<char>> {
    pieces_from(s, 0, 0, false)
}

/// A value without the quotes around it.
pub open spec fn unquoted(v: Seq<char>) -> Seq<char> {
    if v.len() >= 2 && v[0] == '"' && v.last() == '"' {
        v.subrange(1, v.len() - 1)
    } else {
        v
    }
}

/// The name and the value of a piece.
pub open spec fn attribute_of(piece: Seq<char>) -> Option<(Seq<char>, Seq<char>)> {
    match text::index_from(piece, '=', 0) {
        None => None,
        Some(i) => Some(
            (
                text::ascii_uppercase(text::trimmed(piece.take(i))),
                unquoted(text::trimmed(piece.skip(i + 1))),
            ),
        ),
    }
}

/// The value of an attribute. The last one of a name holds.
pub open spec fn attr(pieces: Seq<Seq<char>>, name: Seq<char>) -> Option<Seq<char>>
    decreases pieces.len(),
{
    if pieces.len() == 0 {
        None
    } else {
        match attribute_of(pieces.last()) {
            Some((k, v)) => if k == name {
                Some(v)
            } else {
                attr(pieces.drop_last(), name)
            },
            None => attr(pieces.drop_last(), name),
        }
    }
}

/// The value of an attribute, or nothing.
pub open spec fn attr_or_empty(pieces: Seq<Seq<char>>, name: Seq<char>) -> Seq<char> {
    match attr(pieces, name) {
        Some(v) => v,
        None => Seq::empty(),
    }
}

/// One rendition of the video.
#[derive(Debug, Clone)]
pub struct HlsVariant {
    pub id: String,
    pub uri: String,
    pub audio_group: Option<String>,
    pub subtitles_group: Option<String>,
    pub bandwidth: u64,
    pub codecs: String,
    pub width: u32,
    pub height: u32,
    pub video_range: String,
}

/// What a value of [`HlsVariant`] holds.
#[verifier::ext_equal]
pub struct VariantView {
    pub id: Seq<char>,
    pub uri: Seq<char>,
    pub audio_group: Option<Seq<char>>,
    pub subtitles_group: Option<Seq<char>>,
    pub bandwidth: u64,
    pub codecs: Seq<char>,
    pub width: u32,
    pub height: u32,
    pub video_range: Seq<char>,
}

impl View for HlsVariant {
    type V = VariantView;

    open spec fn view(&self) -> VariantView {
        VariantView {
            id: self.id@,
            uri: self.uri@,
            audio_group: text::opt_text(self.audio_group),
            subtitles_group: text::opt_text(self.subtitles_group),
            bandwidth: self.bandwidth,
            codecs: self.codecs@,
            width: self.width,
            height: self.height,
            video_range: self.video_range@,
        }
    }
}

/// One rendition of the audio or the subtitles.
#[derive(Debug, Clone)]
pub struct HlsRendition {
    pub id: String,
    pub group_id: String,
    pub name: String,
    pub uri: String,
    pub language: String,
    pub channels: String,
    pub is_default: bool,
}

/// What a value of [`HlsRendition`] holds.
#[verifier::ext_equal]
pub struct RenditionView {
    pub id: Seq<char>,
    pub group_id: Seq<char>,
    pub name: Seq<char>,
    pub uri: Seq<char>,
    pub language: Seq<char>,
    pub channels: Seq<char>,
    pub is_default: bool,
}

impl View for HlsRendition {
    type V = RenditionView;

    open spec fn view(&self) -> RenditionView {
        RenditionView {
            id: self.id@,
            group_id: self.group_id@,
            name: self.name@,
            uri: self.uri@,
            language: self.language@,
            channels: self.channels@,
            is_default: self.is_default,
        }
    }
}

/// How a segment is encrypted.
#[derive(Debug, Clone, PartialEq, Eq)]
#[allow(inconsistent_fields)]
pub enum HlsSegmentKey {
    Clear,
    Aes128 { uri: String, iv: Option<[u8; 16]> },
    SampleAesCtr { key_format: String, uri: Option<String> },
    SampleAes { key_format: String, uri: Option<String>, iv: Option<[u8; 16]> },
    Unsupported { method: String, key_format: String },
}

/// What a value of [`HlsSegmentKey`] holds.
#[allow(inconsistent_fields)]
pub enum KeyView {
    Clear,
    Aes128 { uri: Seq<char>, iv: Option<Seq<u8>> },
    SampleAesCtr { key_format: Seq<char>, uri: Option<Seq<char>> },
    SampleAes { key_format: Seq<char>, uri: Option<Seq<char>>, iv: Option<Seq<u8>> },
    Unsupported { method: Seq<char>, key_format: Seq<char> },
}

impl View for HlsSegmentKey {
    type V = KeyView;

    open spec fn view(&self) -> KeyView {
        match self {
            HlsSegmentKey::Clear => KeyView::Clear,
            HlsSegmentKey::Aes128 { uri, iv } => KeyView::Aes128 {
                uri: uri@,
                iv: tenc::bytes_of(*iv),
            },
            HlsSegmentKey::SampleAesCtr { key_format, uri } => KeyView::SampleAesCtr {
                key_format: key_format@,
                uri: text::opt_text(*uri),
            },
            HlsSegmentKey::SampleAes { key_format, uri, iv } => KeyView::SampleAes {
                key_format: key_format@,
                uri: text::opt_text(*uri),
                iv: tenc::bytes_of(*iv),
            },
            HlsSegmentKey::Unsupported { method, key_format } => KeyView::Unsupported {
                method: method@,
                key_format: key_format@,
            },
        }
    }
}

impl HlsSegmentKey {
    /// A copy.
    pub fn duplicate(&self) -> (r: Self)
        ensures
            r@ == self@,
    {
        match self {
            HlsSegmentKey::Clear => HlsSegmentKey::Clear,
            HlsSegmentKey::Aes128 { uri, iv } => HlsSegmentKey::Aes128 {
                uri: text::clone_text(uri.as_str()),
                iv: *iv,
            },
            HlsSegmentKey::SampleAesCtr { key_format, uri } => HlsSegmentKey::SampleAesCtr {
                key_format: text::clone_text(key_format.as_str()),
                uri: text::clone_opt(uri),
            },
            HlsSegmentKey::SampleAes { key_format, uri, iv } => HlsSegmentKey::SampleAes {
                key_format: text::clone_text(key_format.as_str()),
                uri: text::clone_opt(uri),
                iv: *iv,
            },
            HlsSegmentKey::Unsupported { method, key_format } => HlsSegmentKey::Unsupported {
                method: text::clone_text(method.as_str()),
                key_format: text::clone_text(key_format.as_str()),
            },
        }
    }
}

/// One segment.
#[derive(Debug, Clone)]
pub struct HlsSegment {
    pub sequence: u64,
    pub uri: String,
    pub duration_ns: i64,
    pub key: HlsSegmentKey,
    pub discontinuity: bool,
}

/// What a value of [`HlsSegment`] holds.
#[verifier::ext_equal]
pub struct HlsSegmentView {
    pub sequence: u64,
    pub uri: Seq<char>,
    pub duration_ns: i64,
    pub key: KeyView,
    pub discontinuity: bool,
}

impl View for HlsSegment {
    type V = HlsSegmentView;

    open spec fn view(&self) -> HlsSegmentView {
        HlsSegmentView {
            sequence: self.sequence,
            uri: self.uri@,
            duration_ns: self.duration_ns,
            key: self.key@,
            discontinuity: self.discontinuity,
        }
    }
}

impl HlsSegment {
    /// A copy.
    pub fn duplicate(&self) -> (r: Self)
        ensures
            r@ == self@,
    {
        HlsSegment {
            sequence: self.sequence,
            uri: text::clone_text(self.uri.as_str()),
            duration_ns: self.duration_ns,
            key: self.key.duplicate(),
            discontinuity: self.discontinuity,
        }
    }
}

/// A media playlist.
#[derive(Debug, Clone)]
pub struct HlsMediaPlaylist {
    pub uri: String,
    pub target_duration: u64,
    pub media_sequence: u64,
    pub end_list: bool,
    pub has_map: bool,
    pub map_uri: Option<String>,
    pub segments: Vec<HlsSegment>,
}

/// What a value of [`HlsMediaPlaylist`] holds.
#[verifier::ext_equal]
pub struct MediaView {
    pub uri: Seq<char>,
    pub target_duration: u64,
    pub media_sequence: u64,
    pub end_list: bool,
    pub has_map: bool,
    pub map_uri: Option<Seq<char>>,
    pub segments: Seq<HlsSegmentView>,
}

/// What a list of segments holds.
pub open spec fn segment_views(v: Seq<HlsSegment>) -> Seq<HlsSegmentView> {
    v.map_values(|s: HlsSegment| s@)
}

impl View for HlsMediaPlaylist {
    type V = MediaView;

    open spec fn view(&self) -> MediaView {
        MediaView {
            uri: self.uri@,
            target_duration: self.target_duration,
            media_sequence: self.media_sequence,
            end_list: self.end_list,
            has_map: self.has_map,
            map_uri: text::opt_text(self.map_uri),
            segments: segment_views(self.segments@),
        }
    }
}

impl HlsMediaPlaylist {
    /// A playlist without an end goes on.
    pub fn is_live(&self) -> (r: bool)
        ensures
            r == !self@.end_list,
    {
        !self.end_list
    }
}

/// A master playlist.
#[derive(Debug, Clone)]
pub struct HlsMaster {
    pub variants: Vec<HlsVariant>,
    pub audio: Vec<HlsRendition>,
    pub subtitles: Vec<HlsRendition>,
}

/// What a value of [`HlsMaster`] holds.
#[verifier::ext_equal]
pub struct MasterView {
    pub variants: Seq<VariantView>,
    pub audio: Seq<RenditionView>,
    pub subtitles: Seq<RenditionView>,
}

/// What a list of variants holds.
pub open spec fn variant_views(v: Seq<HlsVariant>) -> Seq<VariantView> {
    v.map_values(|x: HlsVariant| x@)
}

/// What a list of renditions holds.
pub open spec fn rendition_views(v: Seq<HlsRendition>) -> Seq<RenditionView> {
    v.map_values(|x: HlsRendition| x@)
}

impl View for HlsMaster {
    type V = MasterView;

    open spec fn view(&self) -> MasterView {
        MasterView {
            variants: variant_views(self.variants@),
            audio: rendition_views(self.audio@),
            subtitles: rendition_views(self.subtitles@),
        }
    }
}

/// A playlist of either kind.
#[derive(Debug, Clone)]
pub enum HlsPlaylist {
    Master(HlsMaster),
    Media(HlsMediaPlaylist),
}

/// What a value of [`HlsPlaylist`] holds.
pub enum PlaylistView {
    Master(MasterView),
    Media(MediaView),
}

impl View for HlsPlaylist {
    type V = PlaylistView;

    open spec fn view(&self) -> PlaylistView {
        match self {
            HlsPlaylist::Master(m) => PlaylistView::Master(m@),
            HlsPlaylist::Media(m) => PlaylistView::Media(m@),
        }
    }
}

/// Whether a text starts like a playlist, behind byte order marks and white space.
pub open spec fn is_playlist(s: Seq<char>) -> bool {
    "#EXTM3U"@.is_prefix_of(text::trim_start(text::skip_char(s, '\u{feff}')))
}

/// Width and height of a `RESOLUTION`, or zeros.
pub open spec fn resolution_of(v: Option<Seq<char>>) -> (u32, u32) {
    match v {
        None => (0u32, 0u32),
        Some(r) => match text::index_from(r, 'x', 0) {
            None => (0u32, 0u32),
            Some(i) => match (
                text::parsed_number(r.take(i), u32::MAX as int),
                text::parsed_number(r.skip(i + 1), u32::MAX as int),
            ) {
                (Some(w), Some(h)) => (w as u32, h as u32),
                _ => (0u32, 0u32),
            },
        },
    }
}

/// The number that a value states, or 0.
pub open spec fn number_or_zero(v: Option<Seq<char>>) -> u64 {
    match v {
        Some(s) => match text::parsed_number(s, u64::MAX as int) {
            Some(n) => n as u64,
            None => 0,
        },
        None => 0,
    }
}

/// The variant that the attributes `a` and the line `uri` state.
pub open spec fn variant_of(
    index: int,
    a: Seq<Seq<char>>,
    base: Seq<char>,
    uri: Seq<char>,
) -> Result<VariantView, HlsErrorView> {
    match resolved(base, uri) {
        Err(e) => Err(e),
        Ok(u) => {
            let (width, height) = resolution_of(attr(a, "RESOLUTION"@));
            Ok(
                VariantView {
                    id: "hls-"@ + text::decimal(index),
                    uri: u,
                    audio_group: attr(a, "AUDIO"@),
                    subtitles_group: attr(a, "SUBTITLES"@),
                    bandwidth: number_or_zero(
                        match attr(a, "BANDWIDTH"@) {
                            Some(b) => Some(b),
                            None => attr(a, "AVERAGE-BANDWIDTH"@),
                        },
                    ),
                    codecs: attr_or_empty(a, "CODECS"@),
                    width,
                    height,
                    video_range: match attr(a, "VIDEO-RANGE"@) {
                        Some(v) => v,
                        None => "SDR"@,
                    },
                },
            )
        },
    }
}

/// The rendition that the attributes `a` state, if they name a group and a URI.
pub open spec fn rendition_of(
    prefix: Seq<char>,
    index: int,
    a: Seq<Seq<char>>,
    base: Seq<char>,
    with_channels: bool,
) -> Result<Option<RenditionView>, HlsErrorView> {
    match (attr(a, "GROUP-ID"@), attr(a, "URI"@)) {
        (Some(group_id), Some(uri)) => match resolved(base, uri) {
            Err(e) => Err(e),
            Ok(u) => Ok(
                Some(
                    RenditionView {
                        id: prefix + text::decimal(index),
                        group_id,
                        name: attr_or_empty(a, "NAME"@),
                        uri: u,
                        language: attr_or_empty(a, "LANGUAGE"@),
                        channels: if with_channels {
                            attr_or_empty(a, "CHANNELS"@)
                        } else {
                            Seq::empty()
                        },
                        is_default: attr(a, "DEFAULT"@) == Some("YES"@),
                    },
                ),
            ),
        },
        _ => Ok(None),
    }
}

/// The block that an `IV` attribute states: up to 16 bytes in hexadecimal, with zeros in front.
pub open spec fn iv_of(s: Seq<char>) -> Result<Seq<u8>, HlsErrorView> {
    let h = text::skip_text(text::skip_text(text::trimmed(s), "0x"@), "0X"@);
    if vstd::utf8::encode_utf8(h).len() % 2 != 0 {
        Err(HlsErrorView::IvLength)
    } else if !text::is_hex(h) {
        Err(HlsErrorView::IvDigits(playready::hex_fault(h)))
    } else if h.len() > 32 {
        Err(HlsErrorView::IvTooLong)
    } else {
        Ok(crate::crypto::cenc::zeros(16 - h.len() / 2) + text::hex_bytes(h))
    }
}

/// An optional IV.
pub open spec fn opt_iv_of(v: Option<Seq<char>>) -> Result<Option<Seq<u8>>, HlsErrorView> {
    match v {
        None => Ok(None),
        Some(s) => match iv_of(s) {
            Ok(b) => Ok(Some(b)),
            Err(e) => Err(e),
        },
    }
}

/// An optional key URL.
pub open spec fn opt_key_uri(base: Seq<char>, v: Option<Seq<char>>) -> Result<
    Option<Seq<char>>,
    HlsErrorView,
> {
    match v {
        None => Ok(None),
        Some(s) => match resolved_key(base, s) {
            Ok(u) => Ok(Some(u)),
            Err(e) => Err(e),
        },
    }
}

/// The key that a `#EXT-X-KEY` line states.
pub open spec fn key_of(rest: Seq<char>, base: Seq<char>) -> Result<KeyView, HlsErrorView> {
    let a = pieces_of(rest);
    let method = match attr(a, "METHOD"@) {
        Some(m) => text::ascii_uppercase(text::trimmed(m)),
        None => "NONE"@,
    };
    let key_format = match attr(a, "KEYFORMAT"@) {
        Some(f) => f,
        None => "identity"@,
    };
    let iv = opt_iv_of(attr(a, "IV"@));
    let uri = opt_key_uri(base, attr(a, "URI"@));
    if method == "NONE"@ {
        Ok(KeyView::Clear)
    } else if method == "SAMPLE-AES-CTR"@ {
        match uri {
            Ok(uri) => Ok(KeyView::SampleAesCtr { key_format, uri }),
            Err(e) => Err(e),
        }
    } else if method == "SAMPLE-AES"@ {
        match iv {
            Err(e) => Err(e),
            Ok(iv) => match uri {
                Err(e) => Err(e),
                Ok(uri) => Ok(KeyView::SampleAes { key_format, uri, iv }),
            },
        }
    } else if method != "AES-128"@ || key_format != "identity"@ {
        Ok(KeyView::Unsupported { method, key_format })
    } else {
        match attr(a, "URI"@) {
            None => Err(HlsErrorView::MissingKeyUri),
            Some(u) => match iv {
                Err(e) => Err(e),
                Ok(iv) => match resolved(base, u) {
                    Err(e) => Err(e),
                    Ok(uri) => Ok(KeyView::Aes128 { uri, iv }),
                },
            },
        }
    }
}

/// The duration that an `#EXTINF` line states, or 0.
pub open spec fn extinf_ns(rest: Seq<char>) -> i64 {
    let first = match text::index_from(rest, ',', 0) {
        Some(i) => rest.take(i),
        None => rest,
    };
    match time::decimal_ns(text::trimmed(first)) {
        Some(v) => time::as_duration(v),
        None => 0,
    }
}

/// What has been read of a playlist.
pub struct ReadState {
    pub master: MasterView,
    /// The attributes of a `#EXT-X-STREAM-INF` whose URI has not come yet.
    pub pending: Option<Seq<Seq<char>>>,
    pub is_master: bool,
    pub media: MediaView,
    pub next_sequence: u64,
    pub extinf: Option<i64>,
    pub key: KeyView,
    pub discontinuity: bool,
}

impl ReadState {
    pub open spec fn start(url: Seq<char>) -> Self {
        ReadState {
            master: MasterView {
                variants: Seq::empty(),
                audio: Seq::empty(),
                subtitles: Seq::empty(),
            },
            pending: None,
            is_master: false,
            media: MediaView {
                uri: url,
                target_duration: 6,
                media_sequence: 0,
                end_list: false,
                has_map: false,
                map_uri: None,
                segments: Seq::empty(),
            },
            next_sequence: 0,
            extinf: None,
            key: KeyView::Clear,
            discontinuity: false,
        }
    }

    /// After the URI of a variant.
    pub open spec fn with_variant(self, line: Seq<char>, url: Seq<char>) -> Result<Self, HlsErrorView> {
        match variant_of(self.master.variants.len() as int, self.pending->0, url, line) {
            Err(e) => Err(e),
            Ok(v) => Ok(
                ReadState {
                    pending: None,
                    master: MasterView { variants: self.master.variants.push(v), ..self.master },
                    ..self
                },
            ),
        }
    }

    /// After a `#EXT-X-MEDIA` line.
    pub open spec fn with_media(self, rest: Seq<char>, url: Seq<char>) -> Result<Self, HlsErrorView> {
        let a = pieces_of(rest);
        let kind = attr(a, "TYPE"@);
        if kind == Some("AUDIO"@) {
            match rendition_of("hls-a-"@, self.master.audio.len() as int, a, url, true) {
                Err(e) => Err(e),
                Ok(None) => Ok(self),
                Ok(Some(r)) => Ok(
                    ReadState {
                        master: MasterView { audio: self.master.audio.push(r), ..self.master },
                        ..self
                    },
                ),
            }
        } else if kind == Some("SUBTITLES"@) {
            match rendition_of("hls-s-"@, self.master.subtitles.len() as int, a, url, false) {
                Err(e) => Err(e),
                Ok(None) => Ok(self),
                Ok(Some(r)) => Ok(
                    ReadState {
                        master: MasterView {
                            subtitles: self.master.subtitles.push(r),
                            ..self.master
                        },
                        ..self
                    },
                ),
            }
        } else {
            Ok(self)
        }
    }

    /// After a `#EXT-X-MAP` line.
    pub open spec fn with_map(self, rest: Seq<char>, url: Seq<char>) -> Result<Self, HlsErrorView> {
        let mapped = MediaView { has_map: true, ..self.media };
        match attr(pieces_of(rest), "URI"@) {
            None => Ok(ReadState { media: mapped, ..self }),
            Some(u) => match resolved(url, u) {
                Err(e) => Err(e),
                Ok(v) => Ok(ReadState { media: MediaView { map_uri: Some(v), ..mapped }, ..self }),
            },
        }
    }

    /// After the URI of a segment.
    pub open spec fn with_segment(self, line: Seq<char>, url: Seq<char>) -> Result<Self, HlsErrorView> {
        match resolved(url, line) {
            Err(e) => Err(e),
            Ok(uri) => Ok(
                ReadState {
                    media: MediaView {
                        segments: self.media.segments.push(
                            HlsSegmentView {
                                sequence: self.next_sequence,
                                uri,
                                duration_ns: self.extinf->0,
                                key: self.key,
                                discontinuity: self.discontinuity,
                            },
                        ),
                        ..self.media
                    },
                    extinf: None,
                    discontinuity: false,
                    next_sequence: ((self.next_sequence + 1) % 0x1_0000_0000_0000_0000) as u64,
                    ..self
                },
            ),
        }
    }

    /// After a tag or a URI outside of a variant.
    pub open spec fn with_tag(self, line: Seq<char>, url: Seq<char>) -> Result<Self, HlsErrorView> {
        if let Some(rest) = text::behind(line, "#EXT-X-STREAM-INF:"@) {
            Ok(ReadState { is_master: true, pending: Some(pieces_of(rest)), ..self })
        } else if let Some(rest) = text::behind(line, "#EXT-X-MEDIA:"@) {
            self.with_media(rest, url)
        } else if let Some(rest) = text::behind(line, "#EXT-X-TARGETDURATION:"@) {
            match text::parsed_number(text::trimmed(rest), u64::MAX as int) {
                Some(n) => Ok(
                    ReadState {
                        media: MediaView { target_duration: n as u64, ..self.media },
                        ..self
                    },
                ),
                None => Ok(self),
            }
        } else if let Some(rest) = text::behind(line, "#EXT-X-MEDIA-SEQUENCE:"@) {
            let n = number_or_zero(Some(text::trimmed(rest)));
            Ok(
                ReadState {
                    media: MediaView { media_sequence: n, ..self.media },
                    next_sequence: n,
                    ..self
                },
            )
        } else if "#EXT-X-ENDLIST"@.is_prefix_of(line) {
            Ok(ReadState { media: MediaView { end_list: true, ..self.media }, ..self })
        } else if "#EXT-X-DISCONTINUITY"@.is_prefix_of(line) {
            Ok(ReadState { discontinuity: true, ..self })
        } else if let Some(rest) = text::behind(line, "#EXT-X-MAP:"@) {
            self.with_map(rest, url)
        } else if let Some(rest) = text::behind(line, "#EXT-X-KEY:"@) {
            match key_of(rest, url) {
                Err(e) => Err(e),
                Ok(key) => Ok(ReadState { key, ..self }),
            }
        } else if let Some(rest) = text::behind(line, "#EXTINF:"@) {
            Ok(ReadState { extinf: Some(extinf_ns(rest)), ..self })
        } else if line[0] == '#' || self.extinf is None {
            Ok(self)
        } else {
            self.with_segment(line, url)
        }
    }

    /// After one more line. Behind `#EXT-X-STREAM-INF` all other tags are passed over until the
    /// URI comes.
    pub open spec fn with_line(self, raw: Seq<char>, url: Seq<char>) -> Result<Self, HlsErrorView> {
        let line = text::trimmed(raw);
        if line.len() == 0 {
            Ok(self)
        } else if self.pending is Some {
            if line[0] == '#' {
                Ok(self)
            } else {
                self.with_variant(line, url)
            }
        } else {
            self.with_tag(line, url)
        }
    }

    /// After the first `n` lines.
    pub open spec fn with_lines(lines: Seq<Seq<char>>, n: int, url: Seq<char>) -> Result<
        Self,
        HlsErrorView,
    >
        decreases n,
    {
        if n <= 0 {
            Ok(ReadState::start(url))
        } else {
            match ReadState::with_lines(lines, n - 1, url) {
                Err(e) => Err(e),
                Ok(s) => s.with_line(lines[n - 1], url),
            }
        }
    }

    /// A playlist with a variant is a master playlist.
    pub open spec fn playlist(self) -> PlaylistView {
        if self.is_master {
            PlaylistView::Master(self.master)
        } else {
            PlaylistView::Media(self.media)
        }
    }
}

/// The playlist that a text states.
pub open spec fn playlist_of(s: Seq<char>, url: Seq<char>) -> Result<PlaylistView, HlsErrorView> {
    if !is_playlist(s) {
        Err(HlsErrorView::NotPlaylist)
    } else {
        let lines = text::lines_of(s);
        match ReadState::with_lines(lines, lines.len() as int, url) {
            Err(e) => Err(e),
            Ok(s) => Ok(s.playlist()),
        }
    }
}

/// Whether segments are numbered one after the other up to `next`.
pub open spec fn is_numbered(segments: Seq<HlsSegmentView>, next: u64) -> bool {
    forall|i: int|
        0 <= i < segments.len() ==> (#[trigger] segments[i]).sequence as int == (next
            - segments.len() + i) % 0x1_0000_0000_0000_0000
}

proof fn lemma_line_keeps_numbering(s: ReadState, raw: Seq<char>, url: Seq<char>)
    requires
        is_numbered(s.media.segments, s.next_sequence),
        s.with_line(raw, url) is Ok,
        text::behind(text::trimmed(raw), "#EXT-X-MEDIA-SEQUENCE:"@) is None || s.pending is Some,
    ensures
        is_numbered(
            s.with_line(raw, url)->Ok_0.media.segments,
            s.with_line(raw, url)->Ok_0.next_sequence,
        ),
{
    let line = text::trimmed(raw);
    let t = s.with_line(raw, url)->Ok_0;
    if t.media.segments.len() != s.media.segments.len() {
        let a = s.media.segments;
        let b = t.media.segments;
        assert(b.len() == a.len() + 1);
        assert forall|i: int| 0 <= i < b.len() implies (#[trigger] b[i]).sequence as int == (
        t.next_sequence - b.len() + i) % 0x1_0000_0000_0000_0000 by {
            if i < a.len() {
                assert(b[i] == a[i]);
            } else {
                assert(b[i].sequence == s.next_sequence);
            }
        }
    } else {
        assert(t.media.segments == s.media.segments);
        assert(t.next_sequence == s.next_sequence);
    }
}

/// The segments that follow a `#EXT-X-MEDIA-SEQUENCE` line are numbered from there on, one after
/// the other.
pub proof fn law_segments_are_numbered(
    lines: Seq<Seq<char>>,
    from: int,
    n: int,
    url: Seq<char>,
)
    requires
        0 <= from <= n <= lines.len(),
        ReadState::with_lines(lines, n, url) is Ok,
        ReadState::with_lines(lines, from, url) matches Ok(s) && s.media.segments.len() == 0,
        forall|i: int|
            from <= i < n ==> text::behind(
                text::trimmed(#[trigger] lines[i]),
                "#EXT-X-MEDIA-SEQUENCE:"@,
            ) is None,
    ensures
        is_numbered(
            ReadState::with_lines(lines, n, url)->Ok_0.media.segments,
            ReadState::with_lines(lines, n, url)->Ok_0.next_sequence,
        ),
    decreases n - from,
{
    if n > from {
        assert(ReadState::with_lines(lines, n - 1, url) is Ok);
        law_segments_are_numbered(lines, from, n - 1, url);
        lemma_line_keeps_numbering(
            ReadState::with_lines(lines, n - 1, url)->Ok_0,
            lines[n - 1],
            url,
        );
    }
}

/// Whether a text starts like a playlist.
pub fn looks_like_hls(s: &str) -> (r: bool)
    ensures
        r == is_playlist(s@),
{
    let a: Vec<char> = text::skip_leading(text::to_chars(s).as_slice(), '\u{feff}');
    let b: Vec<char> = text::trim_front(a.as_slice());
    text::starts_with(b.as_slice(), "#EXTM3U")
}

fn resolve(base: &str, path: &[char]) -> (r: Result<String, HlsError>)
    ensures
        match r {
            Ok(u) => resolved(base@, path@) == Ok::<Seq<char>, HlsErrorView>(u@),
            Err(e) => resolved(base@, path@) == Err::<Seq<char>, HlsErrorView>(e@),
        },
{
    match web::resolve(base, path) {
        Ok(u) => Ok(u),
        Err(UrlError::Base(reason)) => Err(
            HlsError::BaseUrl { url: text::clone_text(base), reason },
        ),
        Err(UrlError::Path(reason)) => Err(
            HlsError::RelativeUrl { url: text::from_chars(path), reason },
        ),
    }
}

fn resolve_key_uri(base: &str, uri: &[char]) -> (r: Result<String, HlsError>)
    ensures
        match r {
            Ok(u) => resolved_key(base@, uri@) == Ok::<Seq<char>, HlsErrorView>(u@),
            Err(e) => resolved_key(base@, uri@) == Err::<Seq<char>, HlsErrorView>(e@),
        },
{
    if text::starts_with(uri, "data:") || text::has(uri, "://") {
        return Ok(text::from_chars(uri));
    }
    resolve(base, uri)
}

fn parse_attr_list(s: &[char]) -> (r: Vec<Vec<char>>)
    ensures
        text::char_views(r@) == pieces_of(s@),
{
    let n: usize = s.len();
    let mut out: Vec<Vec<char>> = Vec::new();
    let mut start: usize = 0;
    let mut quoted: bool = false;
    let mut i: usize = 0;
    let ghost all = pieces_of(s@);
    assert(text::char_views(out@) + all =~= all);
    while i < n
        invariant
            n == s@.len(),
            start <= i <= n,
            text::char_views(out@) + pieces_from(s@, start as int, i as int, quoted) == all,
        decreases n - i,
    {
        let c: char = s[i];
        if c == '"' {
            quoted = !quoted;
        } else if c == ',' && !quoted {
            let piece: Vec<char> = text::copy(vstd::slice::slice_subrange(s, start, i));
            let ghost before = out@;
            out.push(piece);
            proof {
                let rest = pieces_from(s@, i + 1, i + 1, quoted);
                assert(text::char_views(out@) =~= text::char_views(before).push(piece@));
                assert(text::char_views(out@) + rest =~= text::char_views(before) + (seq![piece@]
                    + rest));
            }
            start = i + 1;
        }
        i = i + 1;
    }
    let piece: Vec<char> = text::copy(vstd::slice::slice_subrange(s, start, n));
    let ghost before = out@;
    out.push(piece);
    proof {
        assert(piece@ =~= s@.skip(start as int));
        assert(text::char_views(out@) =~= text::char_views(before).push(piece@));
        assert(text::char_views(out@) =~= all);
    }
    out
}

fn parse_attr_pair(piece: &[char]) -> (r: Option<(Vec<char>, Vec<char>)>)
    ensures
        match r {
            None => attribute_of(piece@) is None,
            Some((k, v)) => attribute_of(piece@) == Some((k@, v@)),
        },
{
    match text::index_of(piece, '=', 0) {
        None => None,
        Some(i) => {
            let name: &[char] = vstd::slice::slice_subrange(piece, 0, i);
            let n: usize = piece.len();
            let rest: &[char] = vstd::slice::slice_subrange(piece, i + 1, n);
            assert(name@ =~= piece@.take(i as int));
            assert(rest@ =~= piece@.skip(i as int + 1));
            let key: Vec<char> = text::to_ascii_upper(text::trim(name).as_slice());
            let v: Vec<char> = text::trim(rest);
            let m: usize = v.len();
            if m >= 2 && v[0] == '"' && v[m - 1] == '"' {
                let inner: Vec<char> = text::copy(
                    vstd::slice::slice_subrange(v.as_slice(), 1, m - 1),
                );
                return Some((key, inner));
            }
            Some((key, v))
        },
    }
}

fn get(pieces: &[Vec<char>], name: &str) -> (r: Option<Vec<char>>)
    ensures
        match r {
            None => attr(text::char_views(pieces@), name@) is None,
            Some(v) => attr(text::char_views(pieces@), name@) == Some(v@),
        },
{
    let mut i: usize = pieces.len();
    let ghost all = text::char_views(pieces@);
    assert(all.take(i as int) =~= all);
    while i > 0
        invariant
            i <= pieces@.len(),
            all == text::char_views(pieces@),
            attr(all, name@) == attr(all.take(i as int), name@),
        decreases i,
    {
        let ghost part = all.take(i as int);
        assert(part.drop_last() =~= all.take(i - 1));
        assert(part.last() == pieces@[i - 1]@);
        if let Some((k, v)) = parse_attr_pair(pieces[i - 1].as_slice()) {
            if text::is(k.as_slice(), name) {
                return Some(v);
            }
        }
        i = i - 1;
    }
    None
}

fn get_text(pieces: &[Vec<char>], name: &str) -> (r: Option<String>)
    ensures
        text::opt_text(r) == attr(text::char_views(pieces@), name@),
{
    match get(pieces, name) {
        None => None,
        Some(v) => Some(text::from_chars(v.as_slice())),
    }
}

fn get_or_empty(pieces: &[Vec<char>], name: &str) -> (r: String)
    ensures
        r@ == attr_or_empty(text::char_views(pieces@), name@),
{
    match get_text(pieces, name) {
        None => String::new(),
        Some(v) => v,
    }
}

fn get_is(pieces: &[Vec<char>], name: &str, value: &str) -> (r: bool)
    ensures
        r == (attr(text::char_views(pieces@), name@) == Some(value@)),
{
    match get(pieces, name) {
        None => false,
        Some(v) => text::is(v.as_slice(), value),
    }
}

fn parse_resolution(v: Option<Vec<char>>) -> (r: (u32, u32))
    ensures
        r == resolution_of(
            match v {
                Some(x) => Some(x@),
                None => None,
            },
        ),
{
    match v {
        None => (0, 0),
        Some(x) => match text::index_of(x.as_slice(), 'x', 0) {
            None => (0, 0),
            Some(i) => {
                let a: &[char] = vstd::slice::slice_subrange(x.as_slice(), 0, i);
                let b: &[char] = vstd::slice::slice_subrange(x.as_slice(), i + 1, x.len());
                assert(a@ =~= x@.take(i as int));
                assert(b@ =~= x@.skip(i as int + 1));
                match (
                    text::parse_number(a, u32::MAX as u64),
                    text::parse_number(b, u32::MAX as u64),
                ) {
                    (Some(w), Some(h)) => (w as u32, h as u32),
                    _ => (0, 0),
                }
            },
        },
    }
}

fn parse_or_zero(v: Option<Vec<char>>) -> (r: u64)
    ensures
        r == number_or_zero(
            match v {
                Some(x) => Some(x@),
                None => None,
            },
        ),
{
    match v {
        None => 0,
        Some(x) => match text::parse_number(x.as_slice(), u64::MAX) {
            Some(n) => n,
            None => 0,
        },
    }
}

/// A prefix with a number behind it.
pub fn numbered(prefix: &str, n: usize) -> (r: String)
    ensures
        r@ == prefix@ + text::decimal(n as int),
{
    let mut out: String = text::clone_text(prefix);
    text::push_decimal(&mut out, n as u64);
    out
}

fn build_variant(index: usize, a: &[Vec<char>], base: &str, uri: &[char]) -> (r: Result<
    HlsVariant,
    HlsError,
>)
    ensures
        match r {
            Ok(v) => variant_of(index as int, text::char_views(a@), base@, uri@) == Ok::<
                VariantView,
                HlsErrorView,
            >(v@),
            Err(e) => variant_of(index as int, text::char_views(a@), base@, uri@) == Err::<
                VariantView,
                HlsErrorView,
            >(e@),
        },
{
    let u: String = match resolve(base, uri) {
        Ok(u) => u,
        Err(e) => return Err(e),
    };
    let (width, height): (u32, u32) = parse_resolution(get(a, "RESOLUTION"));
    let bandwidth: Option<Vec<char>> = match get(a, "BANDWIDTH") {
        Some(b) => Some(b),
        None => get(a, "AVERAGE-BANDWIDTH"),
    };
    let video_range: String = match get_text(a, "VIDEO-RANGE") {
        Some(v) => v,
        None => text::clone_text("SDR"),
    };
    Ok(
        HlsVariant {
            id: numbered("hls-", index),
            uri: u,
            audio_group: get_text(a, "AUDIO"),
            subtitles_group: get_text(a, "SUBTITLES"),
            bandwidth: parse_or_zero(bandwidth),
            codecs: get_or_empty(a, "CODECS"),
            width,
            height,
            video_range,
        },
    )
}

/// What an optional rendition holds.
pub open spec fn opt_rendition(r: Option<HlsRendition>) -> Option<RenditionView> {
    match r {
        Some(x) => Some(x@),
        None => None,
    }
}

fn build_rendition(
    prefix: &str,
    index: usize,
    a: &[Vec<char>],
    base: &str,
    with_channels: bool,
) -> (r: Result<Option<HlsRendition>, HlsError>)
    ensures
        match r {
            Ok(v) => rendition_of(
                prefix@,
                index as int,
                text::char_views(a@),
                base@,
                with_channels,
            ) == Ok::<Option<RenditionView>, HlsErrorView>(opt_rendition(v)),
            Err(e) => rendition_of(
                prefix@,
                index as int,
                text::char_views(a@),
                base@,
                with_channels,
            ) == Err::<Option<RenditionView>, HlsErrorView>(e@),
        },
{
    let group_id: String = match get_text(a, "GROUP-ID") {
        Some(g) => g,
        None => return Ok(None),
    };
    let path: Vec<char> = match get(a, "URI") {
        Some(u) => u,
        None => return Ok(None),
    };
    let uri: String = match resolve(base, path.as_slice()) {
        Ok(u) => u,
        Err(e) => return Err(e),
    };
    let channels: String = if with_channels {
        get_or_empty(a, "CHANNELS")
    } else {
        String::new()
    };
    Ok(
        Some(
            HlsRendition {
                id: numbered(prefix, index),
                group_id,
                name: get_or_empty(a, "NAME"),
                uri,
                language: get_or_empty(a, "LANGUAGE"),
                channels,
                is_default: get_is(a, "DEFAULT", "YES"),
            },
        ),
    )
}

fn parse_iv(s: &[char]) -> (r: Result<[u8; 16], HlsError>)
    ensures
        match r {
            Ok(b) => iv_of(s@) == Ok::<Seq<u8>, HlsErrorView>(b@),
            Err(e) => iv_of(s@) == Err::<Seq<u8>, HlsErrorView>(e@),
        },
{
    proof {
        reveal_strlit("0x");
        reveal_strlit("0X");
    }
    let h: Vec<char> = text::skip_repeated(text::skip_repeated(text::trim(s), "0x"), "0X");
    let digits: String = text::from_chars(h.as_slice());
    if digits.as_str().as_bytes().len() % 2 != 0 {
        return Err(HlsError::IvLength);
    }
    let bytes: Vec<u8> = match playready::hex_decode(digits.as_str()) {
        Err(e) => return Err(HlsError::IvDigits(e)),
        Ok(b) => b,
    };
    if bytes.len() > 16 {
        return Err(HlsError::IvTooLong);
    }
    let mut iv: [u8; 16] = [0u8; 16];
    let pad: usize = 16 - bytes.len();
    for i in 0..bytes.len()
        invariant
            bytes@.len() <= 16,
            pad == 16 - bytes@.len(),
            iv@.len() == 16,
            forall|j: int| 0 <= j < pad ==> iv@[j] == 0,
            forall|j: int| 0 <= j < i ==> iv@[pad + j] == bytes@[j],
    {
        iv[pad + i] = bytes[i];
    }
    assert(iv@ =~= crate::crypto::cenc::zeros(16 - h@.len() / 2) + text::hex_bytes(h@));
    Ok(iv)
}

fn parse_opt_iv(v: Option<Vec<char>>) -> (r: Result<Option<[u8; 16]>, HlsError>)
    ensures
        ({
            let s = match v {
                Some(x) => Some(x@),
                None => None,
            };
            match r {
                Ok(b) => opt_iv_of(s) == Ok::<Option<Seq<u8>>, HlsErrorView>(tenc::bytes_of(b)),
                Err(e) => opt_iv_of(s) == Err::<Option<Seq<u8>>, HlsErrorView>(e@),
            }
        }),
{
    match v {
        None => Ok(None),
        Some(s) => match parse_iv(s.as_slice()) {
            Ok(b) => Ok(Some(b)),
            Err(e) => Err(e),
        },
    }
}

fn resolve_opt_key(base: &str, v: Option<Vec<char>>) -> (r: Result<Option<String>, HlsError>)
    ensures
        ({
            let s = match v {
                Some(x) => Some(x@),
                None => None,
            };
            match r {
                Ok(u) => opt_key_uri(base@, s) == Ok::<Option<Seq<char>>, HlsErrorView>(
                    text::opt_text(u),
                ),
                Err(e) => opt_key_uri(base@, s) == Err::<Option<Seq<char>>, HlsErrorView>(e@),
            }
        }),
{
    match v {
        None => Ok(None),
        Some(s) => match resolve_key_uri(base, s.as_slice()) {
            Ok(u) => Ok(Some(u)),
            Err(e) => Err(e),
        },
    }
}

fn parse_key(rest: &[char], base: &str) -> (r: Result<HlsSegmentKey, HlsError>)
    ensures
        match r {
            Ok(k) => key_of(rest@, base@) == Ok::<KeyView, HlsErrorView>(k@),
            Err(e) => key_of(rest@, base@) == Err::<KeyView, HlsErrorView>(e@),
        },
{
    let attrs: Vec<Vec<char>> = parse_attr_list(rest);
    let a: &[Vec<char>] = attrs.as_slice();
    let method: Vec<char> = match get(a, "METHOD") {
        Some(m) => text::to_ascii_upper(text::trim(m.as_slice()).as_slice()),
        None => text::to_chars("NONE"),
    };
    if text::is(method.as_slice(), "NONE") {
        return Ok(HlsSegmentKey::Clear);
    }
    let key_format: String = match get_text(a, "KEYFORMAT") {
        Some(f) => f,
        None => text::clone_text("identity"),
    };
    if text::is(method.as_slice(), "SAMPLE-AES-CTR") {
        return match resolve_opt_key(base, get(a, "URI")) {
            Ok(uri) => Ok(HlsSegmentKey::SampleAesCtr { key_format, uri }),
            Err(e) => Err(e),
        };
    }
    if text::is(method.as_slice(), "SAMPLE-AES") {
        return match parse_opt_iv(get(a, "IV")) {
            Err(e) => Err(e),
            Ok(iv) => match resolve_opt_key(base, get(a, "URI")) {
                Err(e) => Err(e),
                Ok(uri) => Ok(HlsSegmentKey::SampleAes { key_format, uri, iv }),
            },
        };
    }
    if !text::is(method.as_slice(), "AES-128") || !text::same(key_format.as_str(), "identity") {
        return Ok(
            HlsSegmentKey::Unsupported { method: text::from_chars(method.as_slice()), key_format },
        );
    }
    match get(a, "URI") {
        None => Err(HlsError::MissingKeyUri),
        Some(u) => match parse_opt_iv(get(a, "IV")) {
            Err(e) => Err(e),
            Ok(iv) => match resolve(base, u.as_slice()) {
                Err(e) => Err(e),
                Ok(uri) => Ok(HlsSegmentKey::Aes128 { uri, iv }),
            },
        },
    }
}

fn parse_extinf(rest: &[char]) -> (r: i64)
    ensures
        r == extinf_ns(rest@),
{
    let first: Vec<char> = match text::index_of(rest, ',', 0) {
        Some(i) => {
            let head: &[char] = vstd::slice::slice_subrange(rest, 0, i);
            assert(head@ =~= rest@.take(i as int));
            text::trim(head)
        },
        None => text::trim(rest),
    };
    match time::parse_decimal_ns(first.as_slice()) {
        Some(v) => time::to_duration(v),
        None => 0,
    }
}

struct PlaylistReader {
    master: HlsMaster,
    pending: Option<Vec<Vec<char>>>,
    is_master: bool,
    media: HlsMediaPlaylist,
    next_sequence: u64,
    extinf: Option<i64>,
    key: HlsSegmentKey,
    discontinuity: bool,
}

impl View for PlaylistReader {
    type V = ReadState;

    closed spec fn view(&self) -> ReadState {
        ReadState {
            master: self.master@,
            pending: match self.pending {
                Some(p) => Some(text::char_views(p@)),
                None => None,
            },
            is_master: self.is_master,
            media: self.media@,
            next_sequence: self.next_sequence,
            extinf: self.extinf,
            key: self.key@,
            discontinuity: self.discontinuity,
        }
    }
}

impl PlaylistReader {
    fn new(url: &str) -> (r: Self)
        ensures
            r@ == ReadState::start(url@),
    {
        let r = PlaylistReader {
            master: HlsMaster { variants: Vec::new(), audio: Vec::new(), subtitles: Vec::new() },
            pending: None,
            is_master: false,
            media: HlsMediaPlaylist {
                uri: text::clone_text(url),
                target_duration: 6,
                media_sequence: 0,
                end_list: false,
                has_map: false,
                map_uri: None,
                segments: Vec::new(),
            },
            next_sequence: 0,
            extinf: None,
            key: HlsSegmentKey::Clear,
            discontinuity: false,
        };
        assert(r@.master =~= ReadState::start(url@).master);
        assert(r@.media =~= ReadState::start(url@).media);
        r
    }

    fn add_variant(&mut self, line: &[char], url: &str) -> (r: Result<(), HlsError>)
        requires
            old(self)@.pending is Some,
        ensures
            match r {
                Ok(_) => old(self)@.with_variant(line@, url@) == Ok::<ReadState, HlsErrorView>(
                    final(self)@,
                ),
                Err(e) => old(self)@.with_variant(line@, url@) == Err::<ReadState, HlsErrorView>(e@),
            },
    {
        let attrs: Vec<Vec<char>> = match self.pending.take() {
            Some(a) => a,
            None => return Ok(()),
        };
        let v: HlsVariant = match build_variant(
            self.master.variants.len(),
            attrs.as_slice(),
            url,
            line,
        ) {
            Ok(v) => v,
            Err(e) => return Err(e),
        };
        let ghost before = self.master.variants@;
        self.master.variants.push(v);
        assert(variant_views(self.master.variants@) =~= variant_views(before).push(v@));
        Ok(())
    }

    fn add_media(&mut self, rest: &[char], url: &str) -> (r: Result<(), HlsError>)
        ensures
            match r {
                Ok(_) => old(self)@.with_media(rest@, url@) == Ok::<ReadState, HlsErrorView>(
                    final(self)@,
                ),
                Err(e) => old(self)@.with_media(rest@, url@) == Err::<ReadState, HlsErrorView>(e@),
            },
    {
        let attrs: Vec<Vec<char>> = parse_attr_list(rest);
        let a: &[Vec<char>] = attrs.as_slice();
        if get_is(a, "TYPE", "AUDIO") {
            match build_rendition("hls-a-", self.master.audio.len(), a, url, true) {
                Err(e) => return Err(e),
                Ok(None) => {},
                Ok(Some(x)) => {
                    let ghost before = self.master.audio@;
                    self.master.audio.push(x);
                    assert(rendition_views(self.master.audio@) =~= rendition_views(before).push(
                        x@,
                    ));
                },
            }
        } else if get_is(a, "TYPE", "SUBTITLES") {
            match build_rendition("hls-s-", self.master.subtitles.len(), a, url, false) {
                Err(e) => return Err(e),
                Ok(None) => {},
                Ok(Some(x)) => {
                    let ghost before = self.master.subtitles@;
                    self.master.subtitles.push(x);
                    assert(rendition_views(self.master.subtitles@) =~= rendition_views(
                        before,
                    ).push(x@));
                },
            }
        }
        Ok(())
    }

    fn add_map(&mut self, rest: &[char], url: &str) -> (r: Result<(), HlsError>)
        ensures
            match r {
                Ok(_) => old(self)@.with_map(rest@, url@) == Ok::<ReadState, HlsErrorView>(
                    final(self)@,
                ),
                Err(e) => old(self)@.with_map(rest@, url@) == Err::<ReadState, HlsErrorView>(e@),
            },
    {
        self.media.has_map = true;
        let attrs: Vec<Vec<char>> = parse_attr_list(rest);
        if let Some(u) = get(attrs.as_slice(), "URI") {
            match resolve(url, u.as_slice()) {
                Err(e) => return Err(e),
                Ok(v) => {
                    self.media.map_uri = Some(v);
                },
            }
        }
        Ok(())
    }

    fn add_segment(&mut self, line: &[char], url: &str) -> (r: Result<(), HlsError>)
        requires
            old(self)@.extinf is Some,
        ensures
            match r {
                Ok(_) => old(self)@.with_segment(line@, url@) == Ok::<ReadState, HlsErrorView>(
                    final(self)@,
                ),
                Err(e) => old(self)@.with_segment(line@, url@) == Err::<ReadState, HlsErrorView>(e@),
            },
    {
        let duration_ns: i64 = match self.extinf.take() {
            Some(d) => d,
            None => return Ok(()),
        };
        let uri: String = match resolve(url, line) {
            Ok(u) => u,
            Err(e) => return Err(e),
        };
        let ghost before = self.media.segments@;
        let s = HlsSegment {
            sequence: self.next_sequence,
            uri,
            duration_ns,
            key: self.key.duplicate(),
            discontinuity: self.discontinuity,
        };
        self.media.segments.push(s);
        assert(segment_views(self.media.segments@) =~= segment_views(before).push(s@));
        self.discontinuity = false;
        self.next_sequence = if self.next_sequence == u64::MAX {
            0
        } else {
            self.next_sequence + 1
        };
        Ok(())
    }

    fn add_tag(&mut self, line: &[char], url: &str) -> (r: Result<(), HlsError>)
        requires
            line@.len() > 0,
        ensures
            match r {
                Ok(_) => old(self)@.with_tag(line@, url@) == Ok::<ReadState, HlsErrorView>(
                    final(self)@,
                ),
                Err(e) => old(self)@.with_tag(line@, url@) == Err::<ReadState, HlsErrorView>(e@),
            },
    {
        if let Some(rest) = text::strip_prefix(line, "#EXT-X-STREAM-INF:") {
            self.is_master = true;
            self.pending = Some(parse_attr_list(rest.as_slice()));
            return Ok(());
        }
        if let Some(rest) = text::strip_prefix(line, "#EXT-X-MEDIA:") {
            return self.add_media(rest.as_slice(), url);
        }
        if let Some(rest) = text::strip_prefix(line, "#EXT-X-TARGETDURATION:") {
            if let Some(n) = text::parse_number(text::trim(rest.as_slice()).as_slice(), u64::MAX) {
                self.media.target_duration = n;
            }
            return Ok(());
        }
        if let Some(rest) = text::strip_prefix(line, "#EXT-X-MEDIA-SEQUENCE:") {
            let n: u64 = parse_or_zero(Some(text::trim(rest.as_slice())));
            self.media.media_sequence = n;
            self.next_sequence = n;
            return Ok(());
        }
        if text::starts_with(line, "#EXT-X-ENDLIST") {
            self.media.end_list = true;
            return Ok(());
        }
        if text::starts_with(line, "#EXT-X-DISCONTINUITY") {
            self.discontinuity = true;
            return Ok(());
        }
        if let Some(rest) = text::strip_prefix(line, "#EXT-X-MAP:") {
            return self.add_map(rest.as_slice(), url);
        }
        if let Some(rest) = text::strip_prefix(line, "#EXT-X-KEY:") {
            return match parse_key(rest.as_slice(), url) {
                Err(e) => Err(e),
                Ok(k) => {
                    self.key = k;
                    Ok(())
                },
            };
        }
        if let Some(rest) = text::strip_prefix(line, "#EXTINF:") {
            self.extinf = Some(parse_extinf(rest.as_slice()));
            return Ok(());
        }
        if line[0] == '#' || self.extinf.is_none() {
            return Ok(());
        }
        self.add_segment(line, url)
    }

    fn add_line(&mut self, raw: &[char], url: &str) -> (r: Result<(), HlsError>)
        ensures
            match r {
                Ok(_) => old(self)@.with_line(raw@, url@) == Ok::<ReadState, HlsErrorView>(
                    final(self)@,
                ),
                Err(e) => old(self)@.with_line(raw@, url@) == Err::<ReadState, HlsErrorView>(e@),
            },
    {
        let line: Vec<char> = text::trim(raw);
        if line.len() == 0 {
            return Ok(());
        }
        if self.pending.is_some() {
            if line[0] == '#' {
                return Ok(());
            }
            return self.add_variant(line.as_slice(), url);
        }
        self.add_tag(line.as_slice(), url)
    }
}

/// Reads a playlist that was fetched from `playlist_url`.
pub fn parse_playlist(content: &str, playlist_url: &str) -> (r: Result<HlsPlaylist, HlsError>)
    ensures
        match r {
            Ok(p) => playlist_of(content@, playlist_url@) == Ok::<PlaylistView, HlsErrorView>(p@),
            Err(e) => playlist_of(content@, playlist_url@) == Err::<PlaylistView, HlsErrorView>(e@),
        },
{
    if !looks_like_hls(content) {
        return Err(HlsError::NotPlaylist);
    }
    let lines: Vec<Vec<char>> = text::split_lines(content);
    let ghost all = text::lines_of(content@);
    let mut reader: PlaylistReader = PlaylistReader::new(playlist_url);
    for i in 0..lines.len()
        invariant
            is_playlist(content@),
            all == text::lines_of(content@),
            text::char_views(lines@) == all,
            ReadState::with_lines(all, i as int, playlist_url@) == Ok::<ReadState, HlsErrorView>(
                reader@,
            ),
    {
        assert(all[i as int] == lines@[i as int]@);
        let ghost before = reader@;
        match reader.add_line(lines[i].as_slice(), playlist_url) {
            Ok(_) => {},
            Err(e) => {
                proof {
                    lemma_error_stays(all, i as int + 1, all.len() as int, playlist_url@);
                }
                return Err(e);
            },
        }
    }
    assert(all.len() == lines@.len());
    if reader.is_master {
        Ok(HlsPlaylist::Master(reader.master))
    } else {
        Ok(HlsPlaylist::Media(reader.media))
    }
}

proof fn lemma_error_stays(lines: Seq<Seq<char>>, i: int, n: int, url: Seq<char>)
    requires
        0 <= i <= n,
        ReadState::with_lines(lines, i, url) is Err,
    ensures
        ReadState::with_lines(lines, n, url) == ReadState::with_lines(lines, i, url),
    decreases n - i,
{
    if i < n {
        lemma_error_stays(lines, i, n - 1, url);
    }
}

} // verus!
