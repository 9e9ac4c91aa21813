//! New tasks: what is asked for against what the source has.

use vstd::prelude::*;

use super::api;
use super::api::CreateReq;
use crate::hls::parser;
use crate::hls::parser::{RenditionView, VariantView};
use crate::hls::{HlsMaster, HlsMediaPlaylist, HlsPlaylist, HlsRendition, HlsVariant};
use crate::mpd::parser::RepresentationView;
use crate::mpd::{MpdInfo, Representation, TrackKind};
use crate::segment::state::Rolling;
use crate::segment::{HlsOutput, SubtitleOutput};
use crate::task::hls_source;
use crate::task::hls_source::RenditionError;
use crate::task::live_tuning;
use crate::task::mpd_session;
use crate::task::planning;
use crate::task::{SourceKind, TrackSelection};
use crate::text;

verus! {

/// Why a task cannot be created.
#[derive(Debug)]
pub enum CreateError {
    VideoNotFound,
    SubtitleNotFound { id: String },
    NoSubtitles,
    /// The one track of a media playlist has another name.
    MediaTrackName,
    VariantNotFound { id: String },
    NestedMaster,
    MediaWithoutSubtitles,
    NoSubtitleGroup,
    RenditionNotFound { id: String },
    RenditionOfOtherGroup { id: String, group: String, wanted: String },
    NoRendition { group: String },
}

/// What a value of [`CreateError`] holds.
pub enum CreateErrorView {
    VideoNotFound,
    SubtitleNotFound { id: Seq<char> },
    NoSubtitles,
    MediaTrackName,
    VariantNotFound { id: Seq<char> },
    NestedMaster,
    MediaWithoutSubtitles,
    NoSubtitleGroup,
    RenditionNotFound { id: Seq<char> },
    RenditionOfOtherGroup { id: Seq<char>, group: Seq<char>, wanted: Seq<char> },
    NoRendition { group: Seq<char> },
}

impl View for CreateError {
    type V = CreateErrorView;

    open spec fn view(&self) -> CreateErrorView {
        match self {
            CreateError::VideoNotFound => CreateErrorView::VideoNotFound,
            CreateError::SubtitleNotFound { id } => CreateErrorView::SubtitleNotFound { id: id@ },
            CreateError::NoSubtitles => CreateErrorView::NoSubtitles,
            CreateError::MediaTrackName => CreateErrorView::MediaTrackName,
            CreateError::VariantNotFound { id } => CreateErrorView::VariantNotFound { id: id@ },
            CreateError::NestedMaster => CreateErrorView::NestedMaster,
            CreateError::MediaWithoutSubtitles => CreateErrorView::MediaWithoutSubtitles,
            CreateError::NoSubtitleGroup => CreateErrorView::NoSubtitleGroup,
            CreateError::RenditionNotFound { id } => CreateErrorView::RenditionNotFound { id: id@ },
            CreateError::RenditionOfOtherGroup { id, group, wanted } =>
            CreateErrorView::RenditionOfOtherGroup { id: id@, group: group@, wanted: wanted@ },
            CreateError::NoRendition { group } => CreateErrorView::NoRendition { group: group@ },
        }
    }
}

impl CreateErrorView {
    pub open spec fn text(self) -> Seq<char> {
        match self {
            CreateErrorView::VideoNotFound => "video rep not found"@,
            CreateErrorView::SubtitleNotFound { id } => "subtitle rep "@ + id + " not found"@,
            CreateErrorView::NoSubtitles => "no subtitle track found"@,
            CreateErrorView::MediaTrackName => "HLS media playlist track id must be hls-0"@,
            CreateErrorView::VariantNotFound { id } => "HLS variant "@ + id + " not found"@,
            CreateErrorView::NestedMaster => "nested HLS master playlists are not supported"@,
            CreateErrorView::MediaWithoutSubtitles =>
            "HLS media playlist has no subtitle renditions"@,
            CreateErrorView::NoSubtitleGroup => "selected HLS variant has no SUBTITLES group"@,
            CreateErrorView::RenditionNotFound { id } => "HLS subtitle rendition "@ + id
                + " not found"@,
            CreateErrorView::RenditionOfOtherGroup { id, group, wanted } =>
            "HLS subtitle rendition "@ + id + " belongs to group "@ + group
                + ", but selected video requires group "@ + wanted,
            CreateErrorView::NoRendition { group } => "no subtitle rendition found for group "@
                + group,
        }
    }
}

fn around(before: &str, middle: &str, behind: &str) -> (r: String)
    ensures
        r@ == before@ + middle@ + behind@,
{
    let mut out: String = text::clone_text(before);
    text::push_str(&mut out, middle);
    text::push_str(&mut out, behind);
    out
}

impl CreateError {
    /// The error in words.
    pub fn message(&self) -> (r: String)
        ensures
            r@ == self@.text(),
    {
        match self {
            CreateError::VideoNotFound => text::clone_text("video rep not found"),
            CreateError::SubtitleNotFound { id } => around(
                "subtitle rep ",
                id.as_str(),
                " not found",
            ),
            CreateError::NoSubtitles => text::clone_text("no subtitle track found"),
            CreateError::MediaTrackName => text::clone_text(
                "HLS media playlist track id must be hls-0",
            ),
            CreateError::VariantNotFound { id } => around("HLS variant ", id.as_str(), " not found"),
            CreateError::NestedMaster => text::clone_text(
                "nested HLS master playlists are not supported",
            ),
            CreateError::MediaWithoutSubtitles => text::clone_text(
                "HLS media playlist has no subtitle renditions",
            ),
            CreateError::NoSubtitleGroup => text::clone_text(
                "selected HLS variant has no SUBTITLES group",
            ),
            CreateError::RenditionNotFound { id } => around(
                "HLS subtitle rendition ",
                id.as_str(),
                " not found",
            ),
            CreateError::RenditionOfOtherGroup { id, group, wanted } => {
                let mut out: String = around(
                    "HLS subtitle rendition ",
                    id.as_str(),
                    " belongs to group ",
                );
                text::push_str(&mut out, group.as_str());
                text::push_str(&mut out, ", but selected video requires group ");
                text::push_str(&mut out, wanted.as_str());
                out
            },
            CreateError::NoRendition { group } => {
                let mut out: String = text::clone_text("no subtitle rendition found for group ");
                text::push_str(&mut out, group.as_str());
                out
            },
        }
    }
}

/// The first track from `i` on of the kind of subtitles.
pub open spec fn first_subtitle(reps: Seq<RepresentationView>, i: int) -> Option<int>
    decreases reps.len() - i,
{
    if i < 0 || i >= reps.len() {
        None
    } else if reps[i].kind == TrackKind::Subtitle {
        Some(i)
    } else {
        first_subtitle(reps, i + 1)
    }
}

/// The first subtitles from `i` on with the name `id`.
pub open spec fn subtitle_named(reps: Seq<RepresentationView>, id: Seq<char>, i: int) -> Option<int>
    decreases reps.len() - i,
{
    if i < 0 || i >= reps.len() {
        None
    } else if reps[i].id == id && reps[i].kind == TrackKind::Subtitle {
        Some(i)
    } else {
        subtitle_named(reps, id, i + 1)
    }
}

/// The subtitles of a manifest that are asked for: those of the name, or else the first.
pub open spec fn subtitle_asked(reps: Seq<RepresentationView>, id: Option<Seq<char>>) -> Option<int> {
    match hls_source::name_chosen(id) {
        Some(x) => subtitle_named(reps, x, 0),
        None => first_subtitle(reps, 0),
    }
}

fn find_subtitle<'a>(reps: &'a [Representation], id: Option<&str>) -> (r: Option<&'a Representation>)
    ensures
        ({
            let all = crate::mpd::parser::representation_views(reps@);
            let place = match id {
                Some(x) => subtitle_named(all, x@, 0),
                None => first_subtitle(all, 0),
            };
            match r {
                Some(s) => place matches Some(i) && 0 <= i < all.len() && s@ == all[i],
                None => place is None,
            }
        }),
{
    let ghost all = crate::mpd::parser::representation_views(reps@);
    let n: usize = reps.len();
    let mut i: usize = 0;
    while i < n
        invariant
            n == reps@.len(),
            i <= n,
            all == crate::mpd::parser::representation_views(reps@),
            match id {
                Some(x) => subtitle_named(all, x@, 0) == subtitle_named(all, x@, i as int),
                None => first_subtitle(all, 0) == first_subtitle(all, i as int),
            },
        decreases n - i,
    {
        assert(all[i as int] == reps@[i as int]@);
        let fits: bool = match id {
            Some(x) => text::same(reps[i].id.as_str(), x),
            None => true,
        };
        if fits && reps[i].kind == TrackKind::Subtitle {
            return Some(&reps[i]);
        }
        i = i + 1;
    }
    None
}

/// The subtitles of a manifest that are asked for, where they are switched on.
pub fn select_mpd_subtitle_rep<'a>(
    reps: &'a [Representation],
    enabled: bool,
    selected_id: Option<&str>,
) -> (r: Result<Option<&'a Representation>, CreateError>)
    ensures
        ({
            let all = crate::mpd::parser::representation_views(reps@);
            let id = text::ref_text(selected_id);
            match r {
                Ok(None) => !enabled,
                Ok(Some(s)) => enabled && (subtitle_asked(all, id) matches Some(i) && 0 <= i
                    < all.len() && s@ == all[i]),
                Err(e) => enabled && subtitle_asked(all, id) is None && e@
                    == match hls_source::name_chosen(id) {
                    Some(x) => CreateErrorView::SubtitleNotFound { id: x },
                    None => CreateErrorView::NoSubtitles,
                },
            }
        }),
{
    if !enabled {
        return Ok(None);
    }
    if let Some(x) = selected_id {
        if !hls_source::is_blank(x) {
            return match find_subtitle(reps, Some(x)) {
                Some(s) => Ok(Some(s)),
                None => Err(CreateError::SubtitleNotFound { id: text::clone_text(x) }),
            };
        }
    }
    match find_subtitle(reps, None) {
        Some(s) => Ok(Some(s)),
        None => Err(CreateError::NoSubtitles),
    }
}

/// The variant that stands for a source that is one media playlist.
pub open spec fn only_variant(url: Seq<char>) -> VariantView {
    VariantView {
        id: "hls-0"@,
        uri: url,
        audio_group: None,
        subtitles_group: None,
        bandwidth: 0,
        codecs: "mpegts"@,
        width: 0,
        height: 0,
        video_range: "SDR"@,
    }
}

/// The variant that stands for a source that is one media playlist. It has one name only.
pub fn select_media_variant(source_url: &str, selected_id: &str) -> (r: Result<
    HlsVariant,
    CreateError,
>)
    ensures
        ({
            let named = selected_id@.len() == 0 || selected_id@ == "hls-0"@;
            match r {
                Ok(v) => named && v@ == only_variant(source_url@),
                Err(e) => !named && e@ == CreateErrorView::MediaTrackName,
            }
        }),
{
    if text::to_chars(selected_id).len() != 0 && !text::same(selected_id, "hls-0") {
        return Err(CreateError::MediaTrackName);
    }
    let v = HlsVariant {
        id: text::clone_text("hls-0"),
        uri: text::clone_text(source_url),
        audio_group: None,
        subtitles_group: None,
        bandwidth: 0,
        codecs: text::clone_text("mpegts"),
        width: 0,
        height: 0,
        video_range: text::clone_text("SDR"),
    };
    assert(v@ =~= only_variant(source_url@));
    Ok(v)
}

/// What is said where subtitles are asked for and a master playlist has none that fit.
pub open spec fn rendition_error(
    subtitles: Seq<RenditionView>,
    group: Option<Seq<char>>,
    id: Option<Seq<char>>,
) -> Option<CreateErrorView> {
    match group {
        None => Some(CreateErrorView::NoSubtitleGroup),
        Some(g) => match (hls_source::rendition_of(subtitles, g, id), hls_source::name_chosen(id)) {
            (None, Some(x)) => Some(CreateErrorView::RenditionNotFound { id: x }),
            (None, None) => Some(CreateErrorView::NoRendition { group: g }),
            (Some(i), Some(x)) if subtitles[i].group_id != g => Some(
                CreateErrorView::RenditionOfOtherGroup {
                    id: x,
                    group: subtitles[i].group_id,
                    wanted: g,
                },
            ),
            _ => None,
        },
    }
}

/// The subtitles of a master playlist that are asked for.
pub fn select_master_subtitles<'a>(
    master: &'a HlsMaster,
    group: Option<&str>,
    selected_id: Option<&str>,
) -> (r: Result<&'a HlsRendition, CreateError>)
    ensures
        ({
            let s = master@.subtitles;
            let g = text::ref_text(group);
            let id = text::ref_text(selected_id);
            match r {
                Ok(x) => {
                    &&& rendition_error(s, g, id) is None
                    &&& hls_source::rendition_of(s, g->0, id) matches Some(i) && 0 <= i < s.len()
                        && x@ == s[i]
                },
                Err(e) => rendition_error(s, g, id) == Some(e@),
            }
        }),
{
    let found: Result<Option<&HlsRendition>, RenditionError> =
        hls_source::select_subtitle_rendition(
        master.subtitles.as_slice(),
        group,
        true,
        selected_id,
    );
    let g: &str = match group {
        Some(g) => g,
        None => return Err(CreateError::NoSubtitleGroup),
    };
    let id: String = match selected_id {
        Some(x) => text::clone_text(x),
        None => String::new(),
    };
    match found {
        Ok(Some(x)) => Ok(x),
        Ok(None) => Err(CreateError::NoRendition { group: text::clone_text(g) }),
        Err(RenditionError::NotFound) => Err(CreateError::RenditionNotFound { id }),
        Err(RenditionError::WrongGroup(own)) => Err(
            CreateError::RenditionOfOtherGroup { id, group: own, wanted: text::clone_text(g) },
        ),
        Err(RenditionError::NoGroup) => Err(CreateError::NoSubtitleGroup),
    }
}

/// The subtitles of an HLS source that are asked for, where they are switched on.
pub fn select_hls_subtitle_rendition<'a>(
    source: &'a HlsPlaylist,
    group: Option<&str>,
    enabled: bool,
    selected_id: Option<&str>,
) -> (r: Result<Option<&'a HlsRendition>, CreateError>)
    ensures
        if !enabled {
            r matches Ok(None)
        } else {
            match *source {
                HlsPlaylist::Media(_) => r matches Err(e) && e@
                    == CreateErrorView::MediaWithoutSubtitles,
                HlsPlaylist::Master(m) => {
                    let s = m@.subtitles;
                    let g = text::ref_text(group);
                    let id = text::ref_text(selected_id);
                    match r {
                        Ok(Some(x)) => {
                            &&& rendition_error(s, g, id) is None
                            &&& hls_source::rendition_of(s, g->0, id) matches Some(i) && 0 <= i
                                < s.len() && x@ == s[i]
                        },
                        Ok(None) => false,
                        Err(e) => rendition_error(s, g, id) == Some(e@),
                    }
                },
            }
        },
{
    if !enabled {
        return Ok(None);
    }
    match source {
        HlsPlaylist::Media(_) => Err(CreateError::MediaWithoutSubtitles),
        HlsPlaylist::Master(m) => match select_master_subtitles(m, group, selected_id) {
            Ok(x) => Ok(Some(x)),
            Err(e) => Err(e),
        },
    }
}

/// The range that a master playlist states for codecs in lower case: that of Dolby Vision is PQ.
pub open spec fn range_for(lower: Seq<char>) -> Seq<char> {
    if "dvh"@.is_prefix_of(lower) {
        "PQ"@
    } else {
        "SDR"@
    }
}

/// The range that a master playlist states for codecs in lower case.
pub fn guess_range(lower: &[char]) -> (r: String)
    ensures
        r@ == range_for(lower@),
{
    if text::starts_with(lower, "dvh") {
        text::clone_text("PQ")
    } else {
        text::clone_text("SDR")
    }
}

/// A task as it is asked for.
#[derive(Debug)]
pub struct TaskPlan {
    pub name: String,
    pub selection: TrackSelection,
    pub codecs: String,
    pub video_range: String,
    /// How many segments a playlist lists; all of a source that ends.
    pub window: usize,
    pub target_duration: u64,
    pub is_dynamic: bool,
    /// Whether the segments of the source are put together.
    pub short_source: bool,
    /// What is shown for the subtitles.
    pub subtitle_lang: String,
    pub width: u32,
    pub height: u32,
    pub bandwidth: u64,
    pub total_segments: u64,
}

/// The codecs of a video with those of its audio.
pub open spec fn joined_codecs(video: Seq<char>, audio: Option<RepresentationView>) -> Seq<char> {
    match audio {
        Some(a) => video + ","@ + a.codecs,
        None => video,
    }
}

/// The window of a source: one that ends lists all of its segments.
pub open spec fn window_of(is_dynamic: bool, asked: usize) -> usize {
    if is_dynamic {
        asked
    } else {
        0
    }
}

fn shown_window(is_dynamic: bool, asked: usize) -> (r: usize)
    ensures
        r == window_of(is_dynamic, asked),
{
    if is_dynamic {
        asked
    } else {
        0
    }
}

/// Plans a task on a manifest: the video has to be there; audio that is not is left out, and
/// subtitles that are asked for have to be there.
pub fn plan_mpd_task(info: &MpdInfo, req: &CreateReq) -> (r: Result<TaskPlan, CreateError>)
    ensures
        ({
            let reps = info@.representations;
            let video = mpd_session::track_named(
                reps,
                req.video_rep_id@,
                Some(TrackKind::Video),
                0,
            );
            let audio = mpd_session::chosen(
                reps,
                text::opt_text(req.audio_rep_id),
                Some(TrackKind::Audio),
            );
            let asked = subtitle_asked(reps, text::opt_text(req.subtitle_rep_id));
            match r {
                Err(e) => if video is None {
                    e@ == CreateErrorView::VideoNotFound
                } else {
                    &&& req.enable_subtitles
                    &&& asked is None
                    &&& e@ == match hls_source::name_chosen(
                        text::opt_text(req.subtitle_rep_id),
                    ) {
                        Some(x) => CreateErrorView::SubtitleNotFound { id: x },
                        None => CreateErrorView::NoSubtitles,
                    }
                },
                Ok(p) => {
                    let v = video->0;
                    &&& video is Some
                    &&& req.enable_subtitles ==> asked is Some
                    &&& p.name@ == api::task_name(req.name@)
                    &&& p.codecs@ == joined_codecs(v.codecs, audio)
                    &&& p.video_range@ == range_for(text::lowered(v.codecs))
                    &&& p.window == window_of(info@.is_dynamic, req.window)
                    &&& p.target_duration == req.target_duration
                    &&& p.is_dynamic == info@.is_dynamic
                    &&& p.short_source == live_tuning::is_short(planning::last_span(v))
                    &&& p.width == v.width
                    &&& p.height == v.height
                    &&& p.bandwidth == v.bandwidth
                    &&& p.total_segments == v.segments.len()
                    &&& p.subtitle_lang@ == if req.enable_subtitles {
                        api::label_of(reps[asked->0].lang, reps[asked->0].id)
                    } else {
                        Seq::empty()
                    }
                    &&& p.selection.mpd_url@ == req.mpd@
                    &&& p.selection.source_kind == SourceKind::Mpd
                    &&& p.selection.keys@ == req.keys@
                    &&& p.selection.key_mode == req.key_mode
                    &&& p.selection.video_rep_id@ == req.video_rep_id@
                    &&& text::opt_text(p.selection.audio_rep_id) == text::opt_text(
                        req.audio_rep_id,
                    )
                    &&& p.selection.enable_subtitles == req.enable_subtitles
                    &&& text::opt_text(p.selection.subtitle_rep_id) == if req.enable_subtitles {
                        Some(reps[asked->0].id)
                    } else {
                        None
                    }
                },
            }
        }),
{
    let reps: &[Representation] = info.representations.as_slice();
    let video: Representation = match mpd_session::find_track(
        reps,
        req.video_rep_id.as_str(),
        Some(TrackKind::Video),
    ) {
        Some(v) => v,
        None => return Err(CreateError::VideoNotFound),
    };
    let audio: Option<Representation> = mpd_session::find_chosen(
        reps,
        &req.audio_rep_id,
        Some(TrackKind::Audio),
    );
    let subtitle: Option<&Representation> = match select_mpd_subtitle_rep(
        reps,
        req.enable_subtitles,
        text::as_ref(&req.subtitle_rep_id),
    ) {
        Ok(s) => s,
        Err(e) => return Err(e),
    };
    let mut codecs: String = text::clone_text(video.codecs.as_str());
    if let Some(a) = &audio {
        text::push_str(&mut codecs, ",");
        text::push_str(&mut codecs, a.codecs.as_str());
    }
    let lower: String = text::to_lowercase(video.codecs.as_str());
    let (subtitle_lang, subtitle_rep_id): (String, Option<String>) = match subtitle {
        Some(s) => (
            api::subtitle_label(s.lang.as_str(), s.id.as_str()),
            Some(text::clone_text(s.id.as_str())),
        ),
        None => {
            let none: String = String::new();
            assert(none@ =~= Seq::<char>::empty());
            (none, None)
        },
    };
    let span = planning::representation_segment_duration(&video);
    assert(video@.segments.len() == video.segments@.len());
    Ok(
        TaskPlan {
            name: api::normalize_task_name(req.name.as_str()),
            selection: TrackSelection {
                mpd_url: text::clone_text(req.mpd.as_str()),
                source_kind: SourceKind::Mpd,
                keys: text::clone_text(req.keys.as_str()),
                key_mode: req.key_mode,
                video_rep_id: text::clone_text(req.video_rep_id.as_str()),
                audio_rep_id: text::clone_opt(&req.audio_rep_id),
                enable_subtitles: subtitle.is_some(),
                subtitle_rep_id,
            },
            codecs,
            video_range: guess_range(text::to_chars(lower.as_str()).as_slice()),
            window: shown_window(info.is_dynamic, req.window),
            target_duration: req.target_duration,
            is_dynamic: info.is_dynamic,
            short_source: live_tuning::is_short_segment(span),
            subtitle_lang,
            width: video.width,
            height: video.height,
            bandwidth: video.bandwidth,
            total_segments: video.segments.len() as u64,
        },
    )
}

/// What an optional rendition holds.
pub open spec fn ref_rendition(r: Option<&HlsRendition>) -> Option<RenditionView> {
    match r {
        Some(x) => Some(x@),
        None => None,
    }
}

/// Plans a task on a variant of an HLS source. Its segments are no shorter than the source states.
pub fn plan_hls_task(
    variant: &HlsVariant,
    media: &HlsMediaPlaylist,
    subtitle: Option<&HlsRendition>,
    req: &CreateReq,
) -> (p: TaskPlan)
    ensures
        ({
            let v = variant@;
            let s = ref_rendition(subtitle);
            let live = !media@.end_list;
            &&& p.name@ == api::task_name(req.name@)
            &&& p.codecs@ == api::codecs_of(v)
            &&& p.video_range@ == v.video_range
            &&& p.window == window_of(live, req.window)
            &&& p.target_duration == if req.target_duration > media@.target_duration {
                req.target_duration
            } else {
                media@.target_duration
            }
            &&& p.is_dynamic == live
            &&& p.short_source == live_tuning::is_short(hls_source::segment_span(media@))
            &&& p.width == v.width
            &&& p.height == v.height
            &&& p.bandwidth == v.bandwidth
            &&& p.total_segments == media@.segments.len()
            &&& p.subtitle_lang@ == match s {
                Some(x) => api::label_of(x.language, x.name),
                None => Seq::empty(),
            }
            &&& p.selection.mpd_url@ == req.mpd@
            &&& p.selection.source_kind == SourceKind::Hls
            &&& p.selection.keys@ == req.keys@
            &&& p.selection.key_mode == req.key_mode
            &&& p.selection.video_rep_id@ == v.id
            &&& text::opt_text(p.selection.audio_rep_id) == text::opt_text(req.audio_rep_id)
            &&& p.selection.enable_subtitles == (s is Some)
            &&& text::opt_text(p.selection.subtitle_rep_id) == match s {
                Some(x) => Some(x.id),
                None => None,
            }
        }),
{
    let live: bool = media.is_live();
    let (subtitle_lang, subtitle_rep_id): (String, Option<String>) = match subtitle {
        Some(s) => (
            api::subtitle_label(s.language.as_str(), s.name.as_str()),
            Some(text::clone_text(s.id.as_str())),
        ),
        None => {
            let none: String = String::new();
            assert(none@ =~= Seq::<char>::empty());
            (none, None)
        },
    };
    let span = hls_source::media_segment_duration(media);
    assert(media@.segments.len() == media.segments@.len());
    TaskPlan {
        name: api::normalize_task_name(req.name.as_str()),
        selection: TrackSelection {
            mpd_url: text::clone_text(req.mpd.as_str()),
            source_kind: SourceKind::Hls,
            keys: text::clone_text(req.keys.as_str()),
            key_mode: req.key_mode,
            video_rep_id: text::clone_text(variant.id.as_str()),
            audio_rep_id: text::clone_opt(&req.audio_rep_id),
            enable_subtitles: subtitle.is_some(),
            subtitle_rep_id,
        },
        codecs: api::variant_codecs(variant),
        video_range: text::clone_text(variant.video_range.as_str()),
        window: shown_window(live, req.window),
        target_duration: if req.target_duration > media.target_duration {
            req.target_duration
        } else {
            media.target_duration
        },
        is_dynamic: live,
        short_source: live_tuning::is_short_segment(span),
        subtitle_lang,
        width: variant.width,
        height: variant.height,
        bandwidth: variant.bandwidth,
        total_segments: media.segments.len() as u64,
    }
}

impl TaskPlan {
    /// The outputs of the task `id`, which hold back `publish_delay` of the newest segments.
    pub fn make_outputs(&self, id: &str, publish_delay: usize) -> (r: (HlsOutput, SubtitleOutput))
        ensures
            r.0@ == Rolling::<Seq<u8>>::start(
                self.window as nat,
                self.target_duration,
                self.is_dynamic,
                publish_delay as nat,
            ),
            r.0.codecs() == self.codecs@,
            r.0.video_range() == self.video_range@,
            r.0.base_url() == api::playlist_path(id@),
            r.1@ == Rolling::<Seq<char>>::start(
                self.window as nat,
                self.target_duration,
                self.is_dynamic,
                publish_delay as nat,
            ),
    {
        let mut base: String = text::clone_text("/p/");
        text::push_str(&mut base, id);
        let hls: HlsOutput = HlsOutput::new(
            self.window,
            self.target_duration,
            text::clone_text(self.codecs.as_str()),
            text::clone_text(self.video_range.as_str()),
            self.is_dynamic,
            base,
            publish_delay,
        );
        let subtitles: SubtitleOutput = SubtitleOutput::new(
            self.window,
            self.target_duration,
            self.is_dynamic,
            publish_delay,
        );
        (hls, subtitles)
    }
}

proof fn lemma_first_subtitle(reps: Seq<RepresentationView>, i: int)
    requires
        0 <= i <= reps.len(),
    ensures
        match first_subtitle(reps, i) {
            Some(k) => i <= k < reps.len() && reps[k].kind == TrackKind::Subtitle && forall|j: int|
                i <= j < k ==> (#[trigger] reps[j]).kind != TrackKind::Subtitle,
            None => forall|j: int|
                i <= j < reps.len() ==> (#[trigger] reps[j]).kind != TrackKind::Subtitle,
        },
    decreases reps.len() - i,
{
    if i < reps.len() {
        lemma_first_subtitle(reps, i + 1);
    }
}

proof fn lemma_subtitle_named(reps: Seq<RepresentationView>, id: Seq<char>, i: int)
    requires
        0 <= i <= reps.len(),
    ensures
        match subtitle_named(reps, id, i) {
            Some(k) => i <= k < reps.len() && reps[k].kind == TrackKind::Subtitle && reps[k].id
                == id,
            None => forall|j: int|
                i <= j < reps.len() ==> (#[trigger] reps[j]).kind != TrackKind::Subtitle
                    || reps[j].id != id,
        },
    decreases reps.len() - i,
{
    if i < reps.len() {
        lemma_subtitle_named(reps, id, i + 1);
    }
}

/// Subtitles that are asked for by name are those of the name; without a name they are the first;
/// and they are found wherever there are such.
pub proof fn law_subtitles_are_found(reps: Seq<RepresentationView>, id: Seq<char>)
    requires
        text::trimmed(id).len() > 0,
    ensures
        subtitle_asked(reps, Some(id)) matches Some(k) ==> 0 <= k < reps.len() && reps[k].kind
            == TrackKind::Subtitle && reps[k].id == id,
        subtitle_asked(reps, Some(id)) is None <==> forall|j: int|
            0 <= j < reps.len() ==> (#[trigger] reps[j]).kind != TrackKind::Subtitle || reps[j].id
                != id,
        subtitle_asked(reps, None) matches Some(k) ==> 0 <= k < reps.len() && reps[k].kind
            == TrackKind::Subtitle && forall|j: int|
            0 <= j < k ==> (#[trigger] reps[j]).kind != TrackKind::Subtitle,
        subtitle_asked(reps, None) is None <==> forall|j: int|
            0 <= j < reps.len() ==> (#[trigger] reps[j]).kind != TrackKind::Subtitle,
{
    lemma_first_subtitle(reps, 0);
    lemma_subtitle_named(reps, id, 0);
}

} // verus!
