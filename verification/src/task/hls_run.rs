//! The rounds of a task on playlists: what was done of a round, and when the next one is.

use vstd::prelude::*;

use crate::hls::parser::MediaView;
use crate::task::batch::Batch;
use crate::task::hls_fmp4;
use crate::task::hls_fmp4::{Fmp4Context, Fmp4TrackKind, Fmp4View};
use crate::task::hls_source;
use crate::task::hls_source::{Cursor, CursorView, InputView, SelectedHlsInput};
use crate::task::live_tuning;
use crate::task::mpd_session;
use crate::text;

verus! {

/// How far a round came.
#[derive(Debug, Clone, Copy, PartialEq, Eq, Structural)]
pub struct Progress {
    pub next_sequence: u64,
    /// Whether a segment was given up.
    pub skipped: bool,
}

/// The progress of a batch whose next segment is given up: a live source goes on behind it, another
/// ends there.
pub fn past_failure<T>(batch: &Batch<T>, is_live: bool) -> (r: Option<Progress>)
    requires
        batch.wf(),
        batch@.next < batch@.order.len(),
    ensures
        r == (if is_live {
            Some(Progress { next_sequence: batch@.behind_lost(), skipped: true })
        } else {
            None
        }),
{
    if is_live {
        Some(Progress { next_sequence: batch.skip_to(), skipped: true })
    } else {
        None
    }
}

/// The progress of a batch at the end of its round.
pub fn at_end<T>(batch: &Batch<T>) -> (r: Progress)
    ensures
        r == (Progress { next_sequence: batch@.next_number, skipped: false }),
{
    Progress { next_sequence: batch.next_number(), skipped: false }
}

/// What follows a round.
#[derive(Debug, Clone, Copy, PartialEq, Eq, Structural)]
pub enum After {
    /// The source has ended.
    Finished,
    /// There is more in the same playlists.
    Again,
    /// The playlists are fetched again after this many nanoseconds.
    Wait(u64),
}

/// A source and how far it was followed.
#[derive(Debug)]
pub struct HlsRun {
    pub selected: SelectedHlsInput,
    pub cursor: Cursor,
}

/// What a value of [`HlsRun`] holds.
#[verifier::ext_equal]
pub struct RunView {
    pub selected: InputView,
    pub cursor: CursorView,
}

impl View for HlsRun {
    type V = RunView;

    open spec fn view(&self) -> RunView {
        RunView { selected: self.selected@, cursor: self.cursor@ }
    }
}

impl RunView {
    /// After a round: the cursor stands where the round came to, if there was anything to do.
    pub open spec fn moved(self, done: Option<Progress>) -> Self {
        match done {
            None => self,
            Some(p) => RunView {
                cursor: self.cursor.at(self.selected.video, p.next_sequence),
                ..self
            },
        }
    }

    /// What follows a round that started `elapsed_ns` ago.
    pub open spec fn after(self, done: Option<Progress>, elapsed_ns: u64) -> After {
        let skipped = done matches Some(p) && p.skipped;
        if self.selected.video.end_list {
            After::Finished
        } else if skipped && self.moved(done).cursor.has_more(self.selected.video) {
            After::Again
        } else {
            After::Wait(
                live_tuning::hls_wait(
                    hls_source::segment_span(self.selected.video),
                    elapsed_ns as int,
                ) as u64,
            )
        }
    }

    /// With the playlists fetched again: the cursor starts anew where their numbers went back.
    pub open spec fn refreshed(self, fresh: InputView) -> Self {
        RunView {
            selected: fresh,
            cursor: if hls_source::rewound(self.selected.video, fresh.video) {
                CursorView::restarted(fresh.video)
            } else {
                self.cursor
            },
        }
    }
}

impl HlsRun {
    /// Enters a source.
    pub fn start(selected: SelectedHlsInput, resume: u64, publish_delay: usize) -> (r: Self)
        ensures
            r.selected == selected,
            r.cursor@ == CursorView::entered(
                selected@.video,
                hls_source::entry_of(resume, selected@.video, publish_delay as int),
            ),
    {
        let next: u64 = hls_source::initial_sequence(resume, &selected.video, publish_delay);
        let cursor: Cursor = Cursor::enter(&selected.video, next);
        HlsRun { selected, cursor }
    }

    /// Takes the progress of a round, and says what follows.
    pub fn end_round(&mut self, done: Option<Progress>, elapsed_ns: u64) -> (r: After)
        ensures
            r == old(self)@.after(done, elapsed_ns),
            final(self)@ == old(self)@.moved(done),
            final(self).selected == old(self).selected,
    {
        let ghost before = self@;
        let mut skipped: bool = false;
        if let Some(p) = done {
            self.cursor.move_to(&self.selected.video, p.next_sequence);
            skipped = p.skipped;
        }
        assert(self@ == before.moved(done));
        if !self.selected.video.is_live() {
            return After::Finished;
        }
        if skipped && self.cursor.has_unseen_hls_segment_at_or_after(&self.selected.video) {
            return After::Again;
        }
        After::Wait(
            live_tuning::hls_refresh_wait(
                hls_source::media_segment_duration(&self.selected.video),
                elapsed_ns,
            ),
        )
    }

    /// Takes the playlists fetched again, and says whether their numbers went back.
    pub fn refresh(&mut self, fresh: SelectedHlsInput) -> (r: bool)
        ensures
            r == hls_source::rewound(old(self)@.selected.video, fresh@.video),
            final(self)@ == old(self)@.refreshed(fresh@),
            final(self).selected == fresh,
    {
        let back: bool = hls_source::hls_media_sequence_rewound(
            &self.selected.video,
            &fresh.video,
        );
        if back {
            self.cursor.restart(&fresh.video);
        }
        self.selected = fresh;
        back
    }
}

/// The playlist of a track.
pub open spec fn playlist_of(input: InputView, track: Fmp4TrackKind) -> Option<MediaView> {
    match track {
        Fmp4TrackKind::Video => Some(input.video),
        Fmp4TrackKind::Audio => input.audio,
        Fmp4TrackKind::Subtitle => input.subtitle,
    }
}

/// The init segment that is in use for a track.
pub open spec fn map_in_use(c: Fmp4View, track: Fmp4TrackKind) -> Option<Seq<char>> {
    match track {
        Fmp4TrackKind::Video => c.video.map_uri,
        Fmp4TrackKind::Audio => c.audio.map_uri,
        Fmp4TrackKind::Subtitle => c.subtitle.map_uri,
    }
}

/// Whether a playlist fetched again names another init segment for a track.
pub fn map_changed(c: &Fmp4Context, fresh: &SelectedHlsInput, track: Fmp4TrackKind) -> (r: bool)
    ensures
        r == (map_in_use(c@, track) != hls_fmp4::opt_map(playlist_of(fresh@, track))),
{
    match track {
        Fmp4TrackKind::Video => !mpd_session::same_opt(
            text::as_ref(&c.video.map_uri),
            text::as_ref(&fresh.video.map_uri),
        ),
        Fmp4TrackKind::Audio => !mpd_session::same_opt(
            text::as_ref(&c.audio.map_uri),
            hls_fmp4::map_of(&fresh.audio),
        ),
        Fmp4TrackKind::Subtitle => !mpd_session::same_opt(
            text::as_ref(&c.subtitle.map_uri),
            hls_fmp4::map_of(&fresh.subtitle),
        ),
    }
}

/// What a round came to is not fetched again from the same playlists.
pub proof fn law_rounds_do_not_repeat(r: RunView, p: Progress, i: int)
    requires
        0 <= i < r.selected.video.segments.len(),
        r.selected.video.segments[i].sequence < p.next_sequence,
    ensures
        r.moved(Some(p)).cursor.seen.contains(r.selected.video.segments[i].uri),
{
    hls_source::law_no_segment_twice(r.cursor, r.selected.video, p.next_sequence, i);
}

} // verus!
