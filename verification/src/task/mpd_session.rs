//! A DASH source from its manifest to the end: the tracks, their keys, and what each round and
//! each new manifest does.

use vstd::prelude::*;

use super::aggregate::{
    Aggregate, AggregateView, DownloadedSegment, DownloadedView, Openers, OpenersView, SegmentError,
};
use super::batch::{Batch, BatchView, Step};
use super::buffer::{BufferView, Line};
use super::grouping;
use super::grouping::SegmentJob;
use super::init;
use super::init::{AudioInit, VideoInit};
use super::mpd_keys;
use super::mpd_keys::NoVideoKey;
use super::planning;
use super::planning::{AudioWait, Round, RoundSource, RoundView};
use super::{KeyMode, TrackSelection};
use crate::crypto::cenc::KeyStore;
use crate::mp4::aac;
use crate::mp4::aac::AacConfig;
use crate::mp4::dvcc;
use crate::mp4::tenc;
use crate::mp4::tenc::TrackEncryptionView;
use crate::mp4::TrackEncryption;
use crate::mpd::parser;
use crate::mpd::parser::RepresentationView;
use crate::mpd::{MpdInfo, Representation, TrackKind};
use crate::text;
use crate::ts;
use crate::ts::muxer::TsMuxer;
use crate::ts::AudioCodec;

verus! {

/// Ticks of subtitles in a second where nothing is stated.
pub const DEFAULT_SUBTITLE_TIMESCALE: u32 = 1_000;

/// The first track from `i` on with the name `id`, of the kind `kind` where one is asked for.
pub open spec fn track_named(
    reps: Seq<RepresentationView>,
    id: Seq<char>,
    kind: Option<TrackKind>,
    i: int,
) -> Option<RepresentationView>
    decreases reps.len() - i,
{
    if i < 0 || i >= reps.len() {
        None
    } else if reps[i].id == id && (kind is None || kind == Some(reps[i].kind)) {
        Some(reps[i])
    } else {
        track_named(reps, id, kind, i + 1)
    }
}

/// What an optional track holds.
pub open spec fn opt_track(r: Option<Representation>) -> Option<RepresentationView> {
    match r {
        Some(x) => Some(x@),
        None => None,
    }
}

pub fn find_track(reps: &[Representation], id: &str, kind: Option<TrackKind>) -> (r: Option<
    Representation,
>)
    ensures
        opt_track(r) == track_named(parser::representation_views(reps@), id@, kind, 0),
{
    let ghost all = parser::representation_views(reps@);
    let n: usize = reps.len();
    let mut i: usize = 0;
    while i < n
        invariant
            n == reps@.len(),
            i <= n,
            all == parser::representation_views(reps@),
            track_named(all, id@, kind, 0) == track_named(all, id@, kind, i as int),
        decreases n - i,
    {
        assert(all[i as int] == reps@[i as int]@);
        let fits: bool = match kind {
            None => true,
            Some(k) => k == reps[i].kind,
        };
        if text::same(reps[i].id.as_str(), id) && fits {
            return Some(reps[i].duplicate());
        }
        i = i + 1;
    }
    None
}

/// The tracks of a source that were chosen.
#[derive(Debug)]
pub struct Tracks {
    pub video: Representation,
    pub audio: Option<Representation>,
    pub subtitle: Option<Representation>,
}

/// What a value of [`Tracks`] holds.
#[verifier::ext_equal]
pub struct TracksView {
    pub video: RepresentationView,
    pub audio: Option<RepresentationView>,
    pub subtitle: Option<RepresentationView>,
}

impl View for Tracks {
    type V = TracksView;

    open spec fn view(&self) -> TracksView {
        TracksView {
            video: self.video@,
            audio: opt_track(self.audio),
            subtitle: opt_track(self.subtitle),
        }
    }
}

/// The track that was chosen, if one was and it is there.
pub open spec fn chosen(
    reps: Seq<RepresentationView>,
    id: Option<Seq<char>>,
    kind: Option<TrackKind>,
) -> Option<RepresentationView> {
    match id {
        Some(x) => track_named(reps, x, kind, 0),
        None => None,
    }
}

pub fn find_chosen(reps: &[Representation], id: &Option<String>, kind: Option<TrackKind>) -> (r: Option<
    Representation,
>)
    ensures
        opt_track(r) == chosen(parser::representation_views(reps@), text::opt_text(*id), kind),
{
    match id {
        Some(x) => find_track(reps, x.as_str(), kind),
        None => None,
    }
}

/// The tracks of a manifest that were chosen: there is none without the video, and no subtitles
/// where they are switched off.
pub fn select_tracks(mpd: &MpdInfo, sel: &TrackSelection) -> (r: Option<Tracks>)
    ensures
        ({
            let reps = mpd@.representations;
            let video = track_named(reps, sel.video_rep_id@, Some(TrackKind::Video), 0);
            match r {
                None => video is None,
                Some(t) => {
                    &&& video == Some(t@.video)
                    &&& t@.audio == chosen(
                        reps,
                        text::opt_text(sel.audio_rep_id),
                        Some(TrackKind::Audio),
                    )
                    &&& t@.subtitle == if sel.enable_subtitles {
                        chosen(
                            reps,
                            text::opt_text(sel.subtitle_rep_id),
                            Some(TrackKind::Subtitle),
                        )
                    } else {
                        None
                    }
                },
            }
        }),
{
    let reps: &[Representation] = mpd.representations.as_slice();
    let video: Representation = match find_track(
        reps,
        sel.video_rep_id.as_str(),
        Some(TrackKind::Video),
    ) {
        Some(v) => v,
        None => return None,
    };
    let audio: Option<Representation> = find_chosen(
        reps,
        &sel.audio_rep_id,
        Some(TrackKind::Audio),
    );
    let subtitle: Option<Representation> = if sel.enable_subtitles {
        find_chosen(reps, &sel.subtitle_rep_id, Some(TrackKind::Subtitle))
    } else {
        None
    };
    Some(Tracks { video, audio, subtitle })
}

impl TracksView {
    /// The tracks as a new manifest has them. A video that is gone stays as it was.
    pub open spec fn refreshed(
        self,
        reps: Seq<RepresentationView>,
        video_id: Seq<char>,
        audio_id: Option<Seq<char>>,
        subtitle_id: Option<Seq<char>>,
    ) -> Self {
        TracksView {
            video: match track_named(reps, video_id, None, 0) {
                Some(v) => v,
                None => self.video,
            },
            audio: if audio_id is Some {
                chosen(reps, audio_id, None)
            } else {
                self.audio
            },
            subtitle: if subtitle_id is Some {
                chosen(reps, subtitle_id, Some(TrackKind::Subtitle))
            } else {
                self.subtitle
            },
        }
    }

    /// Where the init segments are: of the video, the audio and the subtitles.
    pub open spec fn init_urls(self) -> (Seq<char>, Option<Seq<char>>, Option<Seq<char>>) {
        (
            self.video.init_url,
            match self.audio {
                Some(a) => Some(a.init_url),
                None => None,
            },
            match self.subtitle {
                Some(s) => Some(s.init_url),
                None => None,
            },
        )
    }

    /// Ticks of subtitles in a second.
    pub open spec fn subtitle_timescale(self) -> u32 {
        match self.subtitle {
            Some(s) => s.timescale,
            None => DEFAULT_SUBTITLE_TIMESCALE,
        }
    }

    /// Ticks of audio in a second.
    pub open spec fn audio_timescale(self) -> u32 {
        match self.audio {
            Some(a) => a.timescale,
            None => init::DEFAULT_AUDIO_TIMESCALE,
        }
    }
}

pub(crate) fn same_opt(a: Option<&str>, b: Option<&str>) -> (r: bool)
    ensures
        r == (text::ref_text(a) == text::ref_text(b)),
{
    match (a, b) {
        (Some(x), Some(y)) => text::same(x, y),
        (None, None) => true,
        _ => false,
    }
}

impl Tracks {
    /// Takes the tracks as a new manifest has them.
    pub fn refresh(&mut self, fresh: &MpdInfo, sel: &TrackSelection)
        ensures
            final(self)@ == old(self)@.refreshed(
                fresh@.representations,
                sel.video_rep_id@,
                text::opt_text(sel.audio_rep_id),
                text::opt_text(sel.subtitle_rep_id),
            ),
    {
        let reps: &[Representation] = fresh.representations.as_slice();
        if let Some(v) = find_track(reps, sel.video_rep_id.as_str(), None) {
            self.video = v;
        }
        if sel.audio_rep_id.is_some() {
            self.audio = find_chosen(reps, &sel.audio_rep_id, None);
        }
        if sel.subtitle_rep_id.is_some() {
            self.subtitle = find_chosen(reps, &sel.subtitle_rep_id, Some(TrackKind::Subtitle));
        }
    }

    fn audio_init(&self) -> (r: Option<&str>)
        ensures
            text::ref_text(r) == self@.init_urls().1,
    {
        match &self.audio {
            Some(a) => Some(a.init_url.as_str()),
            None => None,
        }
    }

    fn subtitle_init(&self) -> (r: Option<&str>)
        ensures
            text::ref_text(r) == self@.init_urls().2,
    {
        match &self.subtitle {
            Some(s) => Some(s.init_url.as_str()),
            None => None,
        }
    }

    /// Ticks of subtitles in a second.
    pub fn subtitle_rate(&self) -> (r: u32)
        ensures
            r == self@.subtitle_timescale(),
    {
        match &self.subtitle {
            Some(s) => s.timescale,
            None => DEFAULT_SUBTITLE_TIMESCALE,
        }
    }

    /// Ticks of audio in a second.
    pub fn audio_rate(&self) -> (r: u32)
        ensures
            r == self@.audio_timescale(),
    {
        match &self.audio {
            Some(a) => a.timescale,
            None => init::DEFAULT_AUDIO_TIMESCALE,
        }
    }
}

/// The identifiers of the keys of the tracks.
#[derive(Debug)]
pub struct TrackKids {
    pub video: Option<String>,
    pub audio: Option<String>,
    pub subtitle: Option<String>,
}

/// What a value of [`TrackKids`] holds.
#[verifier::ext_equal]
pub struct TrackKidsView {
    pub video: Option<Seq<char>>,
    pub audio: Option<Seq<char>>,
    pub subtitle: Option<Seq<char>>,
}

impl View for TrackKids {
    type V = TrackKidsView;

    open spec fn view(&self) -> TrackKidsView {
        TrackKidsView {
            video: text::opt_text(self.video),
            audio: text::opt_text(self.audio),
            subtitle: text::opt_text(self.subtitle),
        }
    }
}

impl TrackKidsView {
    /// Whether a track goes on with another key.
    pub open spec fn changed(self, to: Self) -> bool {
        ||| mpd_keys::differ(self.video, to.video)
        ||| mpd_keys::differ(self.audio, to.audio)
        ||| mpd_keys::differ(self.subtitle, to.subtitle)
    }
}

impl TrackKids {
    /// Whether a track goes on with another key.
    pub fn differs(&self, to: &TrackKids) -> (r: bool)
        ensures
            r == self@.changed(to@),
    {
        mpd_keys::key_changed(&self.video, &to.video) || mpd_keys::key_changed(
            &self.audio,
            &to.audio,
        ) || mpd_keys::key_changed(&self.subtitle, &to.subtitle)
    }
}

/// What the init segments of the tracks state.
pub struct MpdSetup {
    pub video: VideoInit,
    pub audio_codec: Option<AudioCodec>,
    pub audio: AudioInit,
    pub subtitle_tenc: Option<TrackEncryption>,
    pub kids: TrackKids,
    /// The identifiers of the keys that are needed.
    pub required: Vec<String>,
}

/// What optional bytes hold.
pub open spec fn opt_slice(b: Option<&[u8]>) -> Option<Seq<u8>> {
    match b {
        Some(x) => Some(x@),
        None => None,
    }
}

/// The encryption that an optional init segment states.
pub open spec fn tenc_in(init: Option<Seq<u8>>) -> Option<TrackEncryptionView> {
    match init {
        Some(b) => tenc::tenc_in_init(b),
        None => None,
    }
}

/// The codec of the audio track.
pub open spec fn codec_of_audio(t: TracksView) -> Option<AudioCodec> {
    match t.audio {
        Some(a) => Some(init::audio_codec_in(text::ascii_lowercase(a.codecs))),
        None => None,
    }
}

impl MpdSetup {
    /// Reads the init segments of the tracks. Those of audio and subtitles may be missing.
    pub fn read(
        mode: KeyMode,
        tracks: &Tracks,
        vinit: &[u8],
        ainit: Option<&[u8]>,
        sinit: Option<&[u8]>,
    ) -> (r: Self)
        ensures
            r.video.codec == ts::video_codec_of(tracks@.video.codecs),
            r.video.params@ == init::params_in(vinit@, r.video.codec),
            r.video.dovi == dvcc::dovi_in_init(vinit@),
            r.video.range == init::range_of(
                r.video.codec,
                r.video.dovi is Some,
                r.video.params@,
            ),
            init::opt_tenc(r.video.tenc) == tenc::tenc_in_init(vinit@),
            r.audio_codec == codec_of_audio(tracks@),
            r.audio.aac == if r.audio_codec == Some(AudioCodec::AacAdts) && ainit is Some {
                aac::aac_in_init(ainit->0@)
            } else {
                None
            },
            init::opt_tenc(r.audio.tenc) == if tracks@.audio is Some {
                tenc_in(opt_slice(ainit))
            } else {
                None
            },
            init::opt_tenc(r.subtitle_tenc) == if tracks@.subtitle is Some {
                tenc_in(opt_slice(sinit))
            } else {
                None
            },
            r.kids@.video == mpd_keys::kid_of(
                mode,
                init::opt_tenc(r.video.tenc),
                Some(tracks@.video),
            ),
            r.kids@.audio == mpd_keys::kid_of(mode, init::opt_tenc(r.audio.tenc), tracks@.audio),
            r.kids@.subtitle == mpd_keys::kid_of(
                mode,
                init::opt_tenc(r.subtitle_tenc),
                tracks@.subtitle,
            ),
            text::texts(r.required@) == mpd_keys::kids_needed(
                mode,
                tracks@.video,
                init::opt_tenc(r.video.tenc),
                tracks@.audio,
                init::opt_tenc(r.audio.tenc),
                tracks@.subtitle,
                init::opt_tenc(r.subtitle_tenc),
            ),
    {
        let video: VideoInit = init::read_video_init(vinit, tracks.video.codecs.as_str());
        let audio_codec: Option<AudioCodec> = match &tracks.audio {
            Some(a) => Some(init::detect_audio_codec(a.codecs.as_str())),
            None => None,
        };
        let audio: AudioInit = match (audio_codec, ainit) {
            (Some(c), Some(b)) => init::read_audio_init(b, c),
            _ => AudioInit { aac: None, tenc: None },
        };
        let subtitle_tenc: Option<TrackEncryption> = match (&tracks.subtitle, sinit) {
            (Some(_), Some(b)) => TrackEncryption::find_in_init(b),
            _ => None,
        };
        let kids = TrackKids {
            video: mpd_keys::effective_mpd_kid(mode, video.tenc.as_ref(), Some(&tracks.video)),
            audio: mpd_keys::effective_mpd_kid(mode, audio.tenc.as_ref(), tracks.audio.as_ref()),
            subtitle: mpd_keys::effective_mpd_kid(
                mode,
                subtitle_tenc.as_ref(),
                tracks.subtitle.as_ref(),
            ),
        };
        let required: Vec<String> = mpd_keys::required_mpd_kids(
            mode,
            &tracks.video,
            video.tenc.as_ref(),
            tracks.audio.as_ref(),
            audio.tenc.as_ref(),
            tracks.subtitle.as_ref(),
            subtitle_tenc.as_ref(),
        );
        MpdSetup { video, audio_codec, audio, subtitle_tenc, kids, required }
    }

    /// What opens the tracks. The video needs a key if it is encrypted.
    pub fn open(&self, store: &KeyStore) -> (r: Result<Openers, NoVideoKey>)
        ensures
            ({
                let key = mpd_keys::picked(store@, self.kids@.video);
                match r {
                    Ok(o) => {
                        &&& o@.video == match key {
                            Some(k) => Some(mpd_keys::counter_mode(k, None)),
                            None => None,
                        }
                        &&& key is Some || self.video.tenc is None
                        &&& o@.audio == mpd_keys::side_opener(
                            store@,
                            init::opt_tenc(self.audio.tenc),
                            self.kids@.audio,
                        )
                        &&& o@.subtitle == mpd_keys::side_opener(
                            store@,
                            init::opt_tenc(self.subtitle_tenc),
                            self.kids@.subtitle,
                        )
                    },
                    Err(e) => {
                        &&& key is None
                        &&& self.video.tenc is Some
                        &&& text::opt_text(e.kid) == self.kids@.video
                    },
                }
            }),
    {
        let video = match mpd_keys::build_mpd_video_decryptor(
            store,
            self.video.tenc.as_ref(),
            text::as_ref(&self.kids.video),
        ) {
            Ok(d) => d,
            Err(e) => return Err(e),
        };
        let audio = mpd_keys::build_mpd_audio_decryptor(
            store,
            self.audio.tenc.as_ref(),
            text::as_ref(&self.kids.audio),
        );
        let subtitle = mpd_keys::build_mpd_subtitle_decryptor(
            store,
            self.subtitle_tenc.as_ref(),
            text::as_ref(&self.kids.subtitle),
        );
        Ok(Openers { video, audio, subtitle })
    }
}

/// A DASH source under way.
pub struct Session {
    pub tracks: Tracks,
    pub aggregate: Aggregate,
    pub kids: TrackKids,
    pub next_number: u64,
    pub wait: AudioWait,
    /// Whether the manifest is fetched again.
    pub is_live: bool,
    /// Whether segments that cannot be had are given up.
    pub is_dynamic: bool,
}

/// What a value of [`Session`] holds.
#[verifier::ext_equal]
pub struct SessionView {
    pub tracks: TracksView,
    pub aggregate: AggregateView,
    pub kids: TrackKidsView,
    pub next_number: u64,
    pub wait: AudioWait,
    pub is_live: bool,
    pub is_dynamic: bool,
}

impl View for Session {
    type V = SessionView;

    open spec fn view(&self) -> SessionView {
        SessionView {
            tracks: self.tracks@,
            aggregate: self.aggregate@,
            kids: self.kids@,
            next_number: self.next_number,
            wait: self.wait,
            is_live: self.is_live,
            is_dynamic: self.is_dynamic,
        }
    }
}

impl SessionView {
    /// What the next round does.
    pub open spec fn round(self) -> RoundView {
        (RoundSource {
            video: self.tracks.video,
            audio: self.tracks.audio,
            subtitle: self.tracks.subtitle,
            audio_required: self.aggregate.audio_required,
            is_dynamic: self.is_dynamic,
            next: self.next_number,
            wait: self.wait,
        }).round(self.is_live)
    }

    /// Once the next round is planned.
    pub open spec fn planned(self) -> Self {
        let r = self.round();
        SessionView {
            aggregate: if r.boundary {
                self.aggregate.at_boundary()
            } else {
                self.aggregate
            },
            next_number: r.next_number,
            wait: r.wait,
            ..self
        }
    }

    /// Once a segment was taken or refused.
    pub open spec fn with_segment(self, seg: DownloadedView, d: OpenersView) -> Self {
        SessionView { aggregate: self.aggregate.with_segment(seg, d), ..self }
    }

    /// With the tracks of a new manifest: other init segments start a new timeline.
    pub open spec fn with_tracks(self, t: TracksView) -> Self {
        let a = AggregateView {
            video_timescale: t.video.timescale,
            subtitle_timescale: t.subtitle_timescale(),
            ..self.aggregate
        };
        SessionView {
            tracks: t,
            aggregate: if t.init_urls() != self.tracks.init_urls() {
                AggregateView { last_tfdt: None, ..a.at_boundary() }
            } else {
                a
            },
            ..self
        }
    }

    /// With the keys of a new manifest: what was opened with other keys is muxed first. The
    /// configuration of AAC is read again.
    pub open spec fn with_keys(self, kids: TrackKidsView, ainit: Option<Seq<u8>>) -> Self {
        let a = if self.kids.changed(kids) {
            self.aggregate.flushed()
        } else {
            self.aggregate
        };
        let aac = if self.tracks.audio is Some && ainit is Some && a.buffer.muxer.audio_codec
            == Some(AudioCodec::AacAdts) {
            aac::aac_in_init(ainit->0)
        } else {
            a.aac
        };
        SessionView { kids, aggregate: AggregateView { aac, ..a }, ..self }
    }
}

impl Session {
    /// Whether the muxer can write.
    pub open spec fn wf(&self) -> bool {
        self.aggregate.wf()
    }

    /// Starts a source: at `next_number`, behind the timelines of an earlier run.
    pub fn start(
        tracks: Tracks,
        setup: MpdSetup,
        least_cts: Option<i64>,
        audio_required: bool,
        is_live: bool,
        is_dynamic: bool,
        next_number: u64,
        video_line: Line,
        audio_line: Line,
    ) -> (r: Self)
        requires
            tracks@.video.timescale > 0,
            tracks@.audio_timescale() > 0,
        ensures
            r.wf(),
            r@.tracks == tracks@,
            r@.kids == setup.kids@,
            r@.next_number == next_number,
            r@.wait == AudioWait::over(),
            r@.is_live == is_live,
            r@.is_dynamic == is_dynamic,
            r@.aggregate == (AggregateView {
                buffer: BufferView::empty(r@.aggregate.buffer.muxer),
                video_codec: setup.video.codec,
                aac: setup.audio.aac,
                video_timescale: tracks@.video.timescale,
                subtitle_timescale: tracks@.subtitle_timescale(),
                audio_required,
                last_tfdt: None,
                video_line,
                audio_line,
            }),
            ({
                let m = r@.aggregate.buffer.muxer;
                &&& m.param_sets == setup.video.params@.flat()
                &&& m.video_codec == setup.video.codec
                &&& m.dovi == setup.video.dovi
                &&& m.audio_codec == setup.audio_codec
                &&& m.audio_timescale == tracks@.audio_timescale()
                &&& m.clock.timescale == tracks@.video.timescale
                &&& m.clock.base_offset_90k == init::START_BUFFER_90K
                &&& m.clock.cts_shift == match least_cts {
                    Some(c) if c < 0 => -c as u64,
                    _ => 0,
                }
                &&& m.counters == Map::<u16, u8>::empty()
            }),
    {
        let muxer: TsMuxer = init::make_muxer(
            &setup.video,
            setup.audio_codec,
            tracks.audio_rate(),
            tracks.video.timescale,
            least_cts,
        );
        let aggregate: Aggregate = Aggregate::new(
            muxer,
            setup.video.codec,
            setup.audio.aac,
            tracks.video.timescale,
            tracks.subtitle_rate(),
            audio_required,
            video_line,
            audio_line,
        );
        Session {
            tracks,
            aggregate,
            kids: setup.kids,
            next_number,
            wait: AudioWait::none(),
            is_live,
            is_dynamic,
        }
    }

    /// Plans the next round: what is to be fetched.
    pub fn plan(&mut self) -> (r: Vec<SegmentJob>)
        requires
            old(self).wf(),
        ensures
            grouping::job_views(r@) == old(self)@.round().jobs,
            final(self)@ == old(self)@.planned(),
            final(self).wf(),
    {
        let round: Round = planning::plan_round(
            &self.tracks.video,
            self.tracks.audio.as_ref(),
            self.tracks.subtitle.as_ref(),
            self.aggregate.audio_required,
            self.is_live,
            self.is_dynamic,
            self.next_number,
            self.wait,
        );
        if round.boundary {
            self.aggregate.mark_boundary();
        }
        self.next_number = round.next_number;
        self.wait = round.wait;
        round.jobs
    }

    /// Takes a new manifest.
    pub fn refresh(&mut self, fresh: &MpdInfo, sel: &TrackSelection)
        requires
            old(self).wf(),
        ensures
            final(self)@ == old(self)@.with_tracks(
                old(self)@.tracks.refreshed(
                    fresh@.representations,
                    sel.video_rep_id@,
                    text::opt_text(sel.audio_rep_id),
                    text::opt_text(sel.subtitle_rep_id),
                ),
            ),
            final(self).wf(),
    {
        let v: String = text::clone_text(self.tracks.video.init_url.as_str());
        let a: Option<String> = text::copy_ref(self.tracks.audio_init());
        let s: Option<String> = text::copy_ref(self.tracks.subtitle_init());
        self.tracks.refresh(fresh, sel);
        self.aggregate.video_timescale = self.tracks.video.timescale;
        self.aggregate.subtitle_timescale = self.tracks.subtitle_rate();
        let same: bool = text::same(v.as_str(), self.tracks.video.init_url.as_str()) && same_opt(
            text::as_ref(&a),
            self.tracks.audio_init(),
        ) && same_opt(text::as_ref(&s), self.tracks.subtitle_init());
        if !same {
            self.aggregate.mark_boundary();
            self.aggregate.last_tfdt = None;
        }
    }

    /// Takes the keys of a new manifest.
    pub fn rekey(&mut self, kids: TrackKids, ainit: Option<&[u8]>)
        requires
            old(self).wf(),
        ensures
            final(self)@ == old(self)@.with_keys(kids@, opt_slice(ainit)),
            final(self).wf(),
    {
        if self.kids.differs(&kids) {
            self.aggregate.flush();
        }
        self.kids = kids;
        if let Some(b) = ainit {
            if self.tracks.audio.is_some() {
                if let Some(AudioCodec::AacAdts) = self.aggregate.buffer.muxer.audio_kind() {
                    self.aggregate.aac = AacConfig::find_in_init(b);
                }
            }
        }
    }

    /// Processes the segment of a batch that is up, if it is there.
    pub fn advance(
        &mut self,
        batch: &mut Batch<DownloadedSegment>,
        d: &Openers,
        cancelled: bool,
    ) -> (r: Advance)
        requires
            old(self).wf(),
            old(batch).wf(),
        ensures
            final(self).wf(),
            final(batch).wf(),
            ({
                let s = old(self)@;
                let b = old(batch)@;
                let up = b.next < b.order.len();
                let e = b.expected();
                let there = up && !b.failed.contains(e) && !cancelled && b.pending.dom().contains(
                    e,
                );
                let took = BatchView { pending: b.pending.remove(e), ..b };
                match r {
                    Advance::Wait => {
                        &&& !there
                        &&& !(up && b.failed.contains(e))
                        &&& final(self)@ == s
                        &&& final(batch)@ == b
                    },
                    Advance::Lost(n) => {
                        &&& up
                        &&& b.failed.contains(e)
                        &&& n == e
                        &&& final(self)@ == s
                        &&& final(batch)@ == b
                    },
                    Advance::Processed(n) => {
                        &&& there
                        &&& n == e
                        &&& s.aggregate.error_of(b.pending[e]@) is None
                        &&& final(self)@ == s.with_segment(b.pending[e]@, d@)
                        &&& final(batch)@ == took.advanced()
                    },
                    Advance::Refused(n, x) => {
                        &&& there
                        &&& n == e
                        &&& s.aggregate.error_of(b.pending[e]@) == Some(x)
                        &&& final(self)@ == s.with_segment(b.pending[e]@, d@)
                        &&& final(batch)@ == took
                    },
                }
            }),
    {
        match batch.step(cancelled) {
            Step::Wait => Advance::Wait,
            Step::Lost(n) => Advance::Lost(n),
            Step::Process(n, seg) => match self.aggregate.process_segment(&seg, d) {
                Ok(()) => {
                    batch.processed();
                    Advance::Processed(n)
                },
                Err(e) => Advance::Refused(n, e),
            },
        }
    }

    /// Goes on behind a batch.
    pub fn end_batch(&mut self, batch: &Batch<DownloadedSegment>)
        ensures
            final(self)@ == (SessionView { next_number: batch@.next_number, ..old(self)@ }),
            final(self).wf() == old(self).wf(),
    {
        self.next_number = batch.next_number();
    }
}

/// What became of the segment that was up.
#[derive(Debug, Clone, Copy, PartialEq, Eq, Structural)]
pub enum Advance {
    /// It is not there yet.
    Wait,
    /// It could not be fetched.
    Lost(u64),
    /// It was taken.
    Processed(u64),
    /// It cannot be taken.
    Refused(u64, SegmentError),
}

/// A boundary behind a boundary changes nothing.
pub proof fn law_boundary_twice(a: AggregateView)
    ensures
        a.at_boundary().at_boundary() == a.at_boundary(),
{
    let b = a.at_boundary();
    assert(b.at_boundary() =~= b);
}

proof fn lemma_track_named(
    reps: Seq<RepresentationView>,
    id: Seq<char>,
    kind: Option<TrackKind>,
    i: int,
)
    requires
        0 <= i <= reps.len(),
    ensures
        match track_named(reps, id, kind, i) {
            Some(t) => t.id == id && (kind is Some ==> kind == Some(t.kind)) && exists|k: int|
                i <= k < reps.len() && #[trigger] reps[k] == t,
            None => forall|k: int|
                i <= k < reps.len() ==> (#[trigger] reps[k]).id != id || kind is Some && kind
                    != Some(reps[k].kind),
        },
    decreases reps.len() - i,
{
    if i < reps.len() {
        lemma_track_named(reps, id, kind, i + 1);
        if reps[i].id == id && (kind is None || kind == Some(reps[i].kind)) {
            assert(reps[i] == track_named(reps, id, kind, i)->0);
        } else if track_named(reps, id, kind, i) is Some {
            let t = track_named(reps, id, kind, i + 1)->0;
            let k = choose|k: int| i + 1 <= k < reps.len() && #[trigger] reps[k] == t;
            assert(reps[k] == t);
        }
    }
}

/// A track is found by its name and its kind wherever it stands, and a track of another kind or
/// name is never taken for it.
pub proof fn law_chosen_track_is_found(
    reps: Seq<RepresentationView>,
    id: Seq<char>,
    kind: TrackKind,
)
    ensures
        chosen(reps, Some(id), Some(kind)) matches Some(t) ==> t.id == id && t.kind == kind
            && reps.contains(t),
        chosen(reps, Some(id), Some(kind)) is None <==> forall|k: int|
            0 <= k < reps.len() ==> (#[trigger] reps[k]).id != id || reps[k].kind != kind,
        chosen(reps, None, Some(kind)) is None,
{
    lemma_track_named(reps, id, Some(kind), 0);
}

/// A new manifest gives the tracks of the same names. A video that is gone stays, and so does what
/// was not asked for by name.
pub proof fn law_tracks_are_refreshed(
    t: TracksView,
    reps: Seq<RepresentationView>,
    video_id: Seq<char>,
    audio_id: Seq<char>,
)
    ensures
        ({
            let r = t.refreshed(reps, video_id, Some(audio_id), None);
            &&& (exists|k: int| 0 <= k < reps.len() && (#[trigger] reps[k]).id == video_id)
                ==> r.video.id == video_id && reps.contains(r.video)
            &&& (forall|k: int| 0 <= k < reps.len() ==> (#[trigger] reps[k]).id != video_id)
                ==> r.video == t.video
            &&& r.audio matches Some(a) ==> a.id == audio_id && reps.contains(a)
            &&& r.audio is None ==> forall|k: int|
                0 <= k < reps.len() ==> (#[trigger] reps[k]).id != audio_id
            &&& r.subtitle == t.subtitle
            &&& t.refreshed(reps, video_id, None, None).audio == t.audio
        }),
{
    lemma_track_named(reps, video_id, None, 0);
    lemma_track_named(reps, audio_id, None, 0);
}

/// Another init segment of any track starts a new timeline; the same ones keep it.
pub proof fn law_other_init_starts_anew(s: SessionView, t: TracksView)
    ensures
        t.video.init_url != s.tracks.video.init_url ==> s.with_tracks(t).aggregate.last_tfdt is None,
        t.audio is Some && s.tracks.audio is Some && t.audio->0.init_url
            != s.tracks.audio->0.init_url ==> s.with_tracks(t).aggregate.last_tfdt is None,
        t.audio is Some != s.tracks.audio is Some ==> s.with_tracks(t).aggregate.last_tfdt is None,
        t.init_urls() == s.tracks.init_urls() ==> s.with_tracks(t).aggregate.last_tfdt
            == s.aggregate.last_tfdt && s.with_tracks(t).aggregate.buffer == s.aggregate.buffer,
        s.with_tracks(t).next_number == s.next_number,
        s.with_tracks(t).tracks == t,
        s.with_tracks(t).aggregate.video_timescale == t.video.timescale,
{
}

} // verus!
