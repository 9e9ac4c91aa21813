//! Lists of the tracks of a source.

use vstd::prelude::*;

use crate::hls::parser::{HlsSegmentView, MasterView, RenditionView, VariantView};
use crate::hls::{HlsMaster, HlsMediaPlaylist, HlsRendition, HlsSegment, HlsVariant};
use crate::mpd::parser::RepresentationView;
use crate::mpd::{MpdInfo, Representation, TrackKind};
use crate::task::{KeyMode, RunMode};
use crate::text;
use crate::time::SECOND;

verus! {

/// Segments that a live playlist lists where nothing is asked for.
pub const DEFAULT_WINDOW: usize = 6;

/// Seconds of a segment where nothing is asked for.
pub const DEFAULT_TARGET_DURATION: u64 = 7;

/// A request for the tracks of a source.
#[derive(Debug)]
pub struct ParseReq {
    pub mpd: String,
}

/// One track of a source.
#[derive(Debug)]
pub struct TrackOut {
    pub id: String,
    pub kind: String,
    pub codecs: String,
    pub bandwidth: u64,
    pub resolution: String,
    pub lang: String,
    pub segments: usize,
}

/// What a value of [`TrackOut`] holds.
#[verifier::ext_equal]
pub struct TrackView {
    pub id: Seq<char>,
    pub kind: Seq<char>,
    pub codecs: Seq<char>,
    pub bandwidth: u64,
    pub resolution: Seq<char>,
    pub lang: Seq<char>,
    pub segments: nat,
}

impl View for TrackOut {
    type V = TrackView;

    open spec fn view(&self) -> TrackView {
        TrackView {
            id: self.id@,
            kind: self.kind@,
            codecs: self.codecs@,
            bandwidth: self.bandwidth,
            resolution: self.resolution@,
            lang: self.lang@,
            segments: self.segments as nat,
        }
    }
}

/// What a list of tracks holds.
pub open spec fn track_views(v: Seq<TrackOut>) -> Seq<TrackView> {
    v.map_values(|t: TrackOut| t@)
}

/// The tracks of a source.
#[derive(Debug)]
pub struct ParseResp {
    pub is_dynamic: bool,
    pub video: Vec<TrackOut>,
    pub audio: Vec<TrackOut>,
    pub subtitles: Vec<TrackOut>,
}

/// A request for a new task.
#[derive(Debug)]
pub struct CreateReq {
    pub name: String,
    pub mpd: String,
    /// Lines of a key identifier, a colon and a key.
    pub keys: String,
    pub key_mode: KeyMode,
    pub run_mode: RunMode,
    pub video_rep_id: String,
    pub audio_rep_id: Option<String>,
    pub enable_subtitles: bool,
    pub subtitle_rep_id: Option<String>,
    pub window: usize,
    pub target_duration: u64,
}

/// A task that was created.
#[derive(Debug)]
pub struct CreateResp {
    pub id: String,
    pub playlist_url: String,
}

/// The playlist of a task.
pub open spec fn playlist_path(id: Seq<char>) -> Seq<char> {
    "/p/"@ + id
}

impl CreateResp {
    /// The answer for the task `id`.
    pub fn new(id: &str) -> (r: Self)
        ensures
            r.id@ == id@,
            r.playlist_url@ == playlist_path(id@),
    {
        let mut url: String = text::clone_text("/p/");
        text::push_str(&mut url, id);
        CreateResp { id: text::clone_text(id), playlist_url: url }
    }
}

/// A size in pixels, where it is known.
pub open spec fn size_text(width: u32, height: u32) -> Seq<char> {
    if width > 0 {
        text::decimal(width as int) + "x"@ + text::decimal(height as int)
    } else {
        Seq::empty()
    }
}

fn size(width: u32, height: u32) -> (r: String)
    ensures
        r@ == size_text(width, height),
{
    let mut out: String = String::new();
    assert(out@ =~= Seq::<char>::empty());
    if width > 0 {
        text::push_decimal(&mut out, width as u64);
        text::push_str(&mut out, "x");
        text::push_decimal(&mut out, height as u64);
        assert(out@ =~= size_text(width, height));
    }
    out
}

/// The name of a kind.
pub open spec fn kind_text(kind: TrackKind) -> Seq<char> {
    match kind {
        TrackKind::Video => "Video"@,
        TrackKind::Audio => "Audio"@,
        TrackKind::Subtitle => "Subtitle"@,
        TrackKind::Other => "Other"@,
    }
}

fn kind_name(kind: TrackKind) -> (r: String)
    ensures
        r@ == kind_text(kind),
{
    match kind {
        TrackKind::Video => text::clone_text("Video"),
        TrackKind::Audio => text::clone_text("Audio"),
        TrackKind::Subtitle => text::clone_text("Subtitle"),
        TrackKind::Other => text::clone_text("Other"),
    }
}

/// A track of a manifest as it is listed.
pub open spec fn track_of(r: RepresentationView) -> TrackView {
    TrackView {
        id: r.id,
        kind: kind_text(r.kind),
        codecs: r.codecs,
        bandwidth: r.bandwidth,
        resolution: size_text(r.width, r.height),
        lang: r.lang,
        segments: r.segments.len(),
    }
}

fn to_track(r: &Representation) -> (t: TrackOut)
    ensures
        t@ == track_of(r@),
{
    let t = TrackOut {
        id: text::clone_text(r.id.as_str()),
        kind: kind_name(r.kind),
        codecs: text::clone_text(r.codecs.as_str()),
        bandwidth: r.bandwidth,
        resolution: size(r.width, r.height),
        lang: text::clone_text(r.lang.as_str()),
        segments: r.segments.len(),
    };
    assert(t@ =~= track_of(r@));
    t
}

/// The place of a track of this bandwidth in a list: behind all that have no less.
pub open spec fn place_of(list: Seq<TrackView>, bandwidth: u64, i: int) -> int
    decreases list.len() - i,
{
    if i < 0 || i >= list.len() || list[i].bandwidth < bandwidth {
        i
    } else {
        place_of(list, bandwidth, i + 1)
    }
}

/// A list with one more track at its place.
pub open spec fn with_track(list: Seq<TrackView>, t: TrackView) -> Seq<TrackView> {
    list.insert(place_of(list, t.bandwidth, 0), t)
}

/// Tracks from the highest bandwidth down, those of the same in their order.
pub open spec fn ranked(tracks: Seq<TrackView>) -> Seq<TrackView>
    decreases tracks.len(),
{
    if tracks.len() == 0 {
        Seq::empty()
    } else {
        with_track(ranked(tracks.drop_last()), tracks.last())
    }
}

fn insert_track(list: &mut Vec<TrackOut>, t: TrackOut)
    ensures
        track_views(final(list)@) == with_track(track_views(old(list)@), t@),
{
    let ghost v = track_views(list@);
    let n: usize = list.len();
    let mut i: usize = 0;
    while i < n && list[i].bandwidth >= t.bandwidth
        invariant
            n == list@.len(),
            i <= n,
            v == track_views(list@),
            place_of(v, t@.bandwidth, 0) == place_of(v, t@.bandwidth, i as int),
        decreases n - i,
    {
        assert(v[i as int] == list@[i as int]@);
        i = i + 1;
    }
    assert(i < n ==> v[i as int] == list@[i as int]@);
    list.insert(i, t);
    assert(track_views(list@) =~= v.insert(i as int, t@));
}

/// The tracks of one kind among the first `n`.
pub open spec fn tracks_of_kind(reps: Seq<RepresentationView>, kind: TrackKind, n: int) -> Seq<
    TrackView,
>
    decreases n,
{
    if n <= 0 {
        Seq::empty()
    } else {
        let before = tracks_of_kind(reps, kind, n - 1);
        if reps[n - 1].kind == kind {
            before.push(track_of(reps[n - 1]))
        } else {
            before
        }
    }
}

/// The tracks of a manifest: video from the highest bandwidth down, audio and subtitles in their
/// order.
pub fn parse_response(mpd: &MpdInfo) -> (r: ParseResp)
    ensures
        ({
            let reps = mpd@.representations;
            let n = reps.len() as int;
            &&& r.is_dynamic == mpd@.is_dynamic
            &&& track_views(r.video@) == ranked(tracks_of_kind(reps, TrackKind::Video, n))
            &&& track_views(r.audio@) == tracks_of_kind(reps, TrackKind::Audio, n)
            &&& track_views(r.subtitles@) == tracks_of_kind(reps, TrackKind::Subtitle, n)
        }),
{
    let ghost reps = mpd@.representations;
    let n: usize = mpd.representations.len();
    let mut video: Vec<TrackOut> = Vec::new();
    let mut audio: Vec<TrackOut> = Vec::new();
    let mut subtitles: Vec<TrackOut> = Vec::new();
    assert(track_views(video@) =~= Seq::<TrackView>::empty());
    for i in 0..n
        invariant
            n == mpd.representations@.len(),
            reps == mpd@.representations,
            track_views(video@) == ranked(tracks_of_kind(reps, TrackKind::Video, i as int)),
            track_views(audio@) == tracks_of_kind(reps, TrackKind::Audio, i as int),
            track_views(subtitles@) == tracks_of_kind(reps, TrackKind::Subtitle, i as int),
    {
        assert(reps[i as int] == mpd.representations@[i as int]@);
        let t: TrackOut = to_track(&mpd.representations[i]);
        let ghost seen = tracks_of_kind(reps, TrackKind::Video, i as int);
        match mpd.representations[i].kind {
            TrackKind::Video => {
                insert_track(&mut video, t);
                assert(seen.push(t@).drop_last() =~= seen);
            },
            TrackKind::Audio => {
                let ghost before = audio@;
                audio.push(t);
                assert(track_views(audio@) =~= track_views(before).push(t@));
            },
            TrackKind::Subtitle => {
                let ghost before = subtitles@;
                subtitles.push(t);
                assert(track_views(subtitles@) =~= track_views(before).push(t@));
            },
            TrackKind::Other => {},
        }
    }
    ParseResp { is_dynamic: mpd.is_dynamic, video, audio, subtitles }
}

/// The track of a source that is one media playlist.
pub open spec fn media_track(segments: nat) -> TrackView {
    TrackView {
        id: "hls-0"@,
        kind: "Video"@,
        codecs: "mpegts"@,
        bandwidth: 0,
        resolution: Seq::empty(),
        lang: Seq::empty(),
        segments,
    }
}

fn empty_text() -> (r: String)
    ensures
        r@ == Seq::<char>::empty(),
{
    let r: String = String::new();
    assert(r@ =~= Seq::<char>::empty());
    r
}

/// The tracks of a source that is one media playlist.
pub fn media_response(media: &HlsMediaPlaylist) -> (r: ParseResp)
    ensures
        r.is_dynamic == !media@.end_list,
        track_views(r.video@) == seq![media_track(media@.segments.len())],
        r.audio@.len() == 0,
        r.subtitles@.len() == 0,
{
    let t = TrackOut {
        id: text::clone_text("hls-0"),
        kind: text::clone_text("Video"),
        codecs: text::clone_text("mpegts"),
        bandwidth: 0,
        resolution: empty_text(),
        lang: empty_text(),
        segments: media.segments.len(),
    };
    assert(t@ =~= media_track(media@.segments.len()));
    let video: Vec<TrackOut> = vec![t];
    assert(track_views(video@) =~= seq![media_track(media@.segments.len())]);
    ParseResp {
        is_dynamic: media.is_live(),
        video,
        audio: Vec::new(),
        subtitles: Vec::new(),
    }
}

/// The codecs of a variant; one that names none holds TS.
pub open spec fn codecs_of(v: VariantView) -> Seq<char> {
    if v.codecs.len() == 0 {
        "mpegts"@
    } else {
        v.codecs
    }
}

/// The codecs of a variant.
pub fn variant_codecs(v: &HlsVariant) -> (r: String)
    ensures
        r@ == codecs_of(v@),
{
    if text::to_chars(v.codecs.as_str()).len() == 0 {
        text::clone_text("mpegts")
    } else {
        text::clone_text(v.codecs.as_str())
    }
}

/// A variant as it is listed.
pub open spec fn variant_track(v: VariantView, segments: nat) -> TrackView {
    TrackView {
        id: v.id,
        kind: "Video"@,
        codecs: codecs_of(v),
        bandwidth: v.bandwidth,
        resolution: size_text(v.width, v.height),
        lang: Seq::empty(),
        segments,
    }
}

/// A variant as it is listed.
pub fn track_from_hls_variant(v: &HlsVariant, segments: usize) -> (r: TrackOut)
    ensures
        r@ == variant_track(v@, segments as nat),
{
    let t = TrackOut {
        id: text::clone_text(v.id.as_str()),
        kind: text::clone_text("Video"),
        codecs: variant_codecs(v),
        bandwidth: v.bandwidth,
        resolution: size(v.width, v.height),
        lang: empty_text(),
        segments,
    };
    assert(t@ =~= variant_track(v@, segments as nat));
    t
}

/// What a look at the media playlist of a variant found.
#[derive(Debug, Clone, Copy, PartialEq, Eq, Structural)]
pub struct MediaProbe {
    pub segments: usize,
    pub is_live: bool,
}

/// What a look at a media playlist finds.
pub fn probe_media(media: &HlsMediaPlaylist) -> (r: MediaProbe)
    ensures
        r == (MediaProbe {
            segments: media@.segments.len() as usize,
            is_live: !media@.end_list,
        }),
{
    assert(media@.segments.len() == media.segments@.len());
    MediaProbe { segments: media.segments.len(), is_live: media.is_live() }
}

/// The segments that a look found.
pub open spec fn segments_seen(p: Option<MediaProbe>) -> nat {
    match p {
        Some(m) => m.segments as nat,
        None => 0,
    }
}

/// The first `n` variants as they are listed.
pub open spec fn variant_tracks(v: Seq<VariantView>, p: Seq<Option<MediaProbe>>, n: int) -> Seq<
    TrackView,
>
    decreases n,
{
    if n <= 0 {
        Seq::empty()
    } else {
        variant_tracks(v, p, n - 1).push(variant_track(v[n - 1], segments_seen(p[n - 1])))
    }
}

/// Whether a source goes on: one of its playlists does, or none could be looked at.
pub open spec fn goes_on(p: Seq<Option<MediaProbe>>) -> bool {
    ||| forall|i: int| 0 <= i < p.len() ==> (#[trigger] p[i]) is None
    ||| exists|i: int| 0 <= i < p.len() && (#[trigger] p[i]) is Some && p[i]->0.is_live
}

/// The tracks of a source with variants, given what was found of each.
pub fn master_response(
    master: &HlsMaster,
    probes: &[Option<MediaProbe>],
    audio: Vec<TrackOut>,
    subtitles: Vec<TrackOut>,
) -> (r: ParseResp)
    requires
        probes@.len() == master@.variants.len(),
    ensures
        r.is_dynamic == goes_on(probes@),
        track_views(r.video@) == ranked(
            variant_tracks(master@.variants, probes@, probes@.len() as int),
        ),
        r.audio == audio,
        r.subtitles == subtitles,
{
    let ghost all = master@.variants;
    let mut video: Vec<TrackOut> = Vec::new();
    assert(track_views(video@) =~= Seq::<TrackView>::empty());
    let mut saw: bool = false;
    let mut live: bool = false;
    let n: usize = probes.len();
    for i in 0..n
        invariant
            n == probes@.len(),
            n == master.variants@.len(),
            all == master@.variants,
            track_views(video@) == ranked(variant_tracks(all, probes@, i as int)),
            saw == exists|j: int| 0 <= j < i && (#[trigger] probes@[j]) is Some,
            live == exists|j: int|
                0 <= j < i && (#[trigger] probes@[j]) is Some && probes@[j]->0.is_live,
    {
        assert(all[i as int] == master.variants@[i as int]@);
        let segments: usize = match probes[i] {
            Some(p) => {
                saw = true;
                if p.is_live {
                    live = true;
                }
                p.segments
            },
            None => 0,
        };
        let t: TrackOut = track_from_hls_variant(&master.variants[i], segments);
        let ghost before = variant_tracks(all, probes@, i as int);
        assert(before.push(t@).drop_last() =~= before);
        insert_track(&mut video, t);
    }
    ParseResp { is_dynamic: !saw || live, video, audio, subtitles }
}

/// What is shown for subtitles: the language, or else the name, or else a word for them.
pub open spec fn label_of(lang: Seq<char>, fallback: Seq<char>) -> Seq<char> {
    if text::trimmed(lang).len() > 0 {
        text::trimmed(lang)
    } else if text::trimmed(fallback).len() > 0 {
        text::trimmed(fallback)
    } else {
        "subtitles"@
    }
}

/// What is shown for subtitles.
pub fn subtitle_label(lang: &str, fallback: &str) -> (r: String)
    ensures
        r@ == label_of(lang@, fallback@),
{
    let l: Vec<char> = text::trim(text::to_chars(lang).as_slice());
    if l.len() > 0 {
        return text::from_chars(l.as_slice());
    }
    let f: Vec<char> = text::trim(text::to_chars(fallback).as_slice());
    if f.len() > 0 {
        return text::from_chars(f.as_slice());
    }
    text::clone_text("subtitles")
}

/// Subtitles as they are listed, given what was found of their playlist: its segments, and whether
/// it has an init segment.
pub open spec fn subtitle_track(r: RenditionView, found: Option<(usize, bool)>) -> TrackView {
    TrackView {
        id: r.id,
        kind: "Subtitle"@,
        codecs: match found {
            Some((_, true)) => "fmp4-subtitle"@,
            _ => "webvtt"@,
        },
        bandwidth: 0,
        resolution: Seq::empty(),
        lang: label_of(r.language, r.name),
        segments: match found {
            Some(p) => p.0 as nat,
            None => 0,
        },
    }
}

/// Subtitles as they are listed.
pub fn track_from_hls_subtitle_rendition(r: &HlsRendition, media: Option<&HlsMediaPlaylist>) -> (t:
    TrackOut)
    ensures
        t@ == subtitle_track(
            r@,
            match media {
                Some(m) => Some((m@.segments.len() as usize, m@.has_map)),
                None => None,
            },
        ),
{
    let (segments, codecs): (usize, String) = match media {
        Some(m) => {
            assert(m@.segments.len() == m.segments@.len());
            if m.has_map {
                (m.segments.len(), text::clone_text("fmp4-subtitle"))
            } else {
                (m.segments.len(), text::clone_text("webvtt"))
            }
        },
        None => (0, text::clone_text("webvtt")),
    };
    let t = TrackOut {
        id: text::clone_text(r.id.as_str()),
        kind: text::clone_text("Subtitle"),
        codecs,
        bandwidth: 0,
        resolution: empty_text(),
        lang: subtitle_label(r.language.as_str(), r.name.as_str()),
        segments,
    };
    assert(t@ =~= subtitle_track(
        r@,
        match media {
            Some(m) => Some((m@.segments.len() as usize, m@.has_map)),
            None => None,
        },
    ));
    t
}

/// Whether a codec is one of audio.
pub open spec fn is_audio_codec(c: Seq<char>) -> bool {
    let l = text::ascii_lowercase(c);
    ||| "mp4a"@.is_prefix_of(l)
    ||| "ac-3"@.is_prefix_of(l)
    ||| "ec-3"@.is_prefix_of(l)
    ||| "ac-4"@.is_prefix_of(l)
}

/// The first audio codec from the piece `i` on.
pub open spec fn audio_codec_from(pieces: Seq<Seq<char>>, i: int) -> Option<Seq<char>>
    decreases pieces.len() - i,
{
    if i < 0 || i >= pieces.len() {
        None
    } else if is_audio_codec(text::trimmed(pieces[i])) {
        Some(text::trimmed(pieces[i]))
    } else {
        audio_codec_from(pieces, i + 1)
    }
}

/// The first audio codec of a list.
pub fn audio_codec_from_codecs(codecs: &str) -> (r: Option<String>)
    ensures
        text::opt_text(r) == audio_codec_from(text::pieces(codecs@, ','), 0),
{
    let parts: Vec<Vec<char>> = text::split(text::to_chars(codecs).as_slice(), ',');
    let ghost all = text::pieces(codecs@, ',');
    let n: usize = parts.len();
    let mut i: usize = 0;
    assert(text::char_views(parts@).len() == n);
    while i < n
        invariant
            n == parts@.len(),
            i <= n,
            all == text::char_views(parts@),
            all == text::pieces(codecs@, ','),
            audio_codec_from(all, 0) == audio_codec_from(all, i as int),
        decreases n - i,
    {
        assert(all[i as int] == parts@[i as int]@);
        let c: Vec<char> = text::trim(parts[i].as_slice());
        let l: Vec<char> = text::to_ascii_lower(c.as_slice());
        if text::starts_with(l.as_slice(), "mp4a") || text::starts_with(l.as_slice(), "ac-3")
            || text::starts_with(l.as_slice(), "ec-3") || text::starts_with(l.as_slice(), "ac-4") {
            return Some(text::from_chars(c.as_slice()));
        }
        i = i + 1;
    }
    None
}

/// The first variant from `i` on with this group of audio.
pub open spec fn variant_with_audio(v: Seq<VariantView>, group: Seq<char>, i: int) -> Option<int>
    decreases v.len() - i,
{
    if i < 0 || i >= v.len() {
        None
    } else if v[i].audio_group == Some(group) {
        Some(i)
    } else {
        variant_with_audio(v, group, i + 1)
    }
}

/// The codec of an audio rendition: that of the first variant with its group.
pub open spec fn rendition_codec(m: MasterView, r: RenditionView) -> Seq<char> {
    let found = match variant_with_audio(m.variants, r.group_id, 0) {
        Some(i) => audio_codec_from(text::pieces(m.variants[i].codecs, ','), 0),
        None => None,
    };
    match found {
        Some(c) => c,
        None => "audio"@,
    }
}

/// An audio rendition as it is listed.
pub open spec fn audio_track(m: MasterView, r: RenditionView, bandwidth: u64) -> TrackView {
    let ch = text::trimmed(r.channels);
    TrackView {
        id: r.id,
        kind: "Audio"@,
        codecs: if ch.len() == 0 {
            rendition_codec(m, r)
        } else {
            rendition_codec(m, r) + " "@ + ch + "ch"@
        },
        bandwidth,
        resolution: Seq::empty(),
        lang: if text::trimmed(r.language).len() == 0 {
            r.name
        } else {
            r.language
        },
        segments: 0,
    }
}

fn codec_of_rendition(m: &HlsMaster, r: &HlsRendition) -> (c: String)
    ensures
        c@ == rendition_codec(m@, r@),
{
    let ghost all = m@.variants;
    let n: usize = m.variants.len();
    let mut i: usize = 0;
    while i < n
        invariant
            n == m.variants@.len(),
            i <= n,
            all == m@.variants,
            variant_with_audio(all, r@.group_id, 0) == variant_with_audio(
                all,
                r@.group_id,
                i as int,
            ),
        decreases n - i,
    {
        assert(all[i as int] == m.variants@[i as int]@);
        let fits: bool = match &m.variants[i].audio_group {
            Some(g) => text::same(g.as_str(), r.group_id.as_str()),
            None => false,
        };
        if fits {
            return match audio_codec_from_codecs(m.variants[i].codecs.as_str()) {
                Some(c) => c,
                None => text::clone_text("audio"),
            };
        }
        i = i + 1;
    }
    text::clone_text("audio")
}

/// An audio rendition as it is listed, with the bandwidth that was measured.
pub fn track_from_hls_rendition(m: &HlsMaster, r: &HlsRendition, bandwidth: u64) -> (t: TrackOut)
    ensures
        t@ == audio_track(m@, r@, bandwidth),
{
    let mut codecs: String = codec_of_rendition(m, r);
    let ch: Vec<char> = text::trim(text::to_chars(r.channels.as_str()).as_slice());
    if ch.len() > 0 {
        let c: String = text::from_chars(ch.as_slice());
        text::push_str(&mut codecs, " ");
        text::push_str(&mut codecs, c.as_str());
        text::push_str(&mut codecs, "ch");
    }
    let known: bool = text::trim(text::to_chars(r.language.as_str()).as_slice()).len() > 0;
    let lang: String = if known {
        text::clone_text(r.language.as_str())
    } else {
        text::clone_text(r.name.as_str())
    };
    let t = TrackOut {
        id: text::clone_text(r.id.as_str()),
        kind: text::clone_text("Audio"),
        codecs,
        bandwidth,
        resolution: empty_text(),
        lang,
        segments: 0,
    };
    assert(t@ =~= audio_track(m@, r@, bandwidth));
    t
}

/// The last of the first `n` segments that lasts any time.
pub open spec fn last_with_time(s: Seq<HlsSegmentView>, n: int) -> Option<int>
    decreases n,
{
    if n <= 0 {
        None
    } else if s[n - 1].duration_ns > 0 {
        Some(n - 1)
    } else {
        last_with_time(s, n - 1)
    }
}

/// The segment by which a bandwidth is measured: the last that lasts any time.
pub fn probe_segment<'a>(media: &'a HlsMediaPlaylist) -> (r: Option<&'a HlsSegment>)
    ensures
        match r {
            Some(s) => last_with_time(media@.segments, media@.segments.len() as int) matches Some(
                i,
            ) && 0 <= i < media@.segments.len() && s@ == media@.segments[i] && s@.duration_ns > 0,
            None => last_with_time(media@.segments, media@.segments.len() as int) is None,
        },
{
    let ghost s = media@.segments;
    let mut n: usize = media.segments.len();
    while n > 0
        invariant
            s == media@.segments,
            n <= media.segments@.len(),
            last_with_time(s, s.len() as int) == last_with_time(s, n as int),
        decreases n,
    {
        assert(s[n - 1] == media.segments@[n - 1]@);
        if media.segments[n - 1].duration_ns > 0 {
            return Some(&media.segments[n - 1]);
        }
        n = n - 1;
    }
    None
}

/// Bits per second of `bytes` in `duration_ns`, rounded to the nearest, halves up, within 64 bits.
pub open spec fn bits_per_second(bytes: int, duration_ns: int) -> int {
    let rounded = (2 * 8 * bytes * SECOND + duration_ns) / (2 * duration_ns);
    if rounded > u64::MAX {
        u64::MAX as int
    } else {
        rounded
    }
}

/// Bits per second of a segment.
pub fn bitrate(bytes: usize, duration_ns: i64) -> (r: u64)
    requires
        duration_ns > 0,
    ensures
        r == bits_per_second(bytes as int, duration_ns as int),
{
    let second: u128 = SECOND as u128;
    assert(second == 1_000_000_000);
    let top: u128 = 16 * (bytes as u128) * second + duration_ns as u128;
    let rounded: u128 = top / (2 * duration_ns as u128);
    if rounded > u64::MAX as u128 {
        u64::MAX
    } else {
        rounded as u64
    }
}

/// The name of a task: without white space around it, and no more than 80 characters.
pub open spec fn task_name(name: Seq<char>) -> Seq<char> {
    let t = text::trimmed(name);
    if t.len() == 0 {
        "未命名任务"@
    } else if t.len() > 80 {
        t.take(80)
    } else {
        t
    }
}

/// The name of a task.
pub fn normalize_task_name(name: &str) -> (r: String)
    ensures
        r@ == task_name(name@),
{
    let t: Vec<char> = text::trim(text::to_chars(name).as_slice());
    if t.len() == 0 {
        return text::clone_text("未命名任务");
    }
    let n: usize = if t.len() > 80 {
        80
    } else {
        t.len()
    };
    let head: &[char] = vstd::slice::slice_subrange(t.as_slice(), 0, n);
    assert(head@ =~= task_name(name@));
    text::from_chars(head)
}

/// Whether tracks go from the highest bandwidth down.
pub open spec fn is_ranked(t: Seq<TrackView>) -> bool {
    forall|i: int, j: int|
        0 <= i < j < t.len() ==> (#[trigger] t[i]).bandwidth >= (#[trigger] t[j]).bandwidth
}

proof fn lemma_place(list: Seq<TrackView>, bandwidth: u64, i: int)
    requires
        0 <= i <= list.len(),
        is_ranked(list),
        forall|j: int| 0 <= j < i ==> (#[trigger] list[j]).bandwidth >= bandwidth,
    ensures
        i <= place_of(list, bandwidth, i) <= list.len(),
        forall|j: int|
            0 <= j < place_of(list, bandwidth, i) ==> (#[trigger] list[j]).bandwidth >= bandwidth,
        forall|j: int|
            place_of(list, bandwidth, i) <= j < list.len() ==> (#[trigger] list[j]).bandwidth
                < bandwidth,
    decreases list.len() - i,
{
    if i < list.len() && list[i].bandwidth >= bandwidth {
        lemma_place(list, bandwidth, i + 1);
    }
}

/// The video tracks of an answer go from the highest bandwidth down, and none is lost.
pub proof fn law_tracks_are_ranked(tracks: Seq<TrackView>)
    ensures
        is_ranked(ranked(tracks)),
        ranked(tracks).to_multiset() == tracks.to_multiset(),
    decreases tracks.len(),
{
    if tracks.len() > 0 {
        let before = tracks.drop_last();
        let list = ranked(before);
        let t = tracks.last();
        law_tracks_are_ranked(before);
        lemma_place(list, t.bandwidth, 0);
        let p = place_of(list, t.bandwidth, 0);
        let all = list.insert(p, t);
        assert forall|i: int, j: int| 0 <= i < j < all.len() implies (#[trigger] all[i]).bandwidth
            >= (#[trigger] all[j]).bandwidth by {
            let a = if i < p {
                list[i]
            } else if i == p {
                t
            } else {
                list[i - 1]
            };
            let b = if j < p {
                list[j]
            } else if j == p {
                t
            } else {
                list[j - 1]
            };
            assert(all[i] == a && all[j] == b);
        }
        broadcast use vstd::seq_lib::group_to_multiset_ensures;

        assert(all.to_multiset() =~= list.to_multiset().insert(t)) by {
            vstd::seq_lib::to_multiset_insert(list, p, t);
        }
        assert(tracks =~= before.push(t));
    } else {
        assert(ranked(tracks) =~= tracks);
    }
}

} // verus!
