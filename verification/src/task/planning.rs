//! Which segments of a DASH source are fetched next.

use vstd::prelude::*;

use super::grouping;
use super::grouping::{GroupSource, JobView, PlanView, SegmentJob, ShortSourceJobPlan};
use super::matching;
use crate::mpd::parser::{RepresentationView, SegmentRefView};
use crate::mpd::{Representation, SegmentRef};
use crate::time::Span;

verus! {

/// After how many rounds a live source gives up a segment whose audio does not come.
pub const AUDIO_MATCH_MAX_WAIT_REFRESHES: u32 = 4;

/// A wait for audio.
#[derive(Debug, Clone, Copy, PartialEq, Eq, Structural)]
pub struct AudioWait {
    /// The segment whose audio is missing.
    pub seg: Option<u64>,
    /// In how many rounds it was missing.
    pub refreshes: u32,
}

impl AudioWait {
    /// No wait.
    pub open spec fn over() -> Self {
        AudioWait { seg: None, refreshes: 0 }
    }

    /// No wait.
    pub fn none() -> (r: Self)
        ensures
            r == Self::over(),
    {
        AudioWait { seg: None, refreshes: 0 }
    }

    /// The wait after one more round for `seg`.
    pub open spec fn waited(self, seg: u64) -> Self {
        AudioWait {
            seg: Some(seg),
            refreshes: if self.seg != Some(seg) {
                1
            } else if self.refreshes == u32::MAX {
                u32::MAX
            } else {
                (self.refreshes + 1) as u32
            },
        }
    }

    /// Waits one more round for `seg`.
    pub fn wait_for(self, seg: u64) -> (r: Self)
        ensures
            r == self.waited(seg),
    {
        let same: bool = match self.seg {
            Some(s) => s == seg,
            None => false,
        };
        let refreshes: u32 = if !same {
            1
        } else if self.refreshes == u32::MAX {
            u32::MAX
        } else {
            self.refreshes + 1
        };
        AudioWait { seg: Some(seg), refreshes }
    }
}

/// What a round does.
#[derive(Debug)]
pub struct Round {
    pub jobs: Vec<SegmentJob>,
    /// Whether a new timeline starts before the jobs.
    pub boundary: bool,
    /// Where the round goes on that follows one without jobs.
    pub next_number: u64,
    pub wait: AudioWait,
}

/// What a value of [`Round`] holds.
#[verifier::ext_equal]
pub struct RoundView {
    pub jobs: Seq<JobView>,
    pub boundary: bool,
    pub next_number: u64,
    pub wait: AudioWait,
}

impl View for Round {
    type V = RoundView;

    open spec fn view(&self) -> RoundView {
        RoundView {
            jobs: grouping::job_views(self.jobs@),
            boundary: self.boundary,
            next_number: self.next_number,
            wait: self.wait,
        }
    }
}

/// What a round looks at.
pub struct RoundSource {
    pub video: RepresentationView,
    pub audio: Option<RepresentationView>,
    pub subtitle: Option<RepresentationView>,
    pub audio_required: bool,
    /// Whether segments that cannot be had are given up.
    pub is_dynamic: bool,
    pub next: u64,
    pub wait: AudioWait,
}

/// The last of the first `n` segments with a number.
pub open spec fn last_numbered(s: Seq<SegmentRefView>, number: u64, n: int) -> Option<int>
    decreases n,
{
    if n <= 0 {
        None
    } else if s[n - 1].number == number {
        Some(n - 1)
    } else {
        last_numbered(s, number, n - 1)
    }
}

impl RoundSource {
    /// What becomes of groups that wait for audio, and of those that do not.
    pub open spec fn grouped(self, plan: PlanView) -> RoundView {
        if plan.jobs.len() == 0 && plan.blocked is Some {
            let w = self.wait.waited(plan.blocked->0.seg);
            if self.is_dynamic && w.refreshes >= AUDIO_MATCH_MAX_WAIT_REFRESHES {
                RoundView {
                    jobs: plan.jobs,
                    boundary: true,
                    next_number: plan.blocked->0.skip_to,
                    wait: AudioWait::over(),
                }
            } else {
                RoundView {
                    jobs: plan.jobs,
                    boundary: plan.skipped,
                    next_number: self.next,
                    wait: w,
                }
            }
        } else {
            RoundView {
                jobs: plan.jobs,
                boundary: plan.skipped,
                next_number: self.next,
                wait: AudioWait::over(),
            }
        }
    }

    /// The audio segment that belongs to a video segment: by time, or the last of its number.
    pub open spec fn audio_of(self, seg: SegmentRefView) -> Option<SegmentRefView> {
        match self.audio {
            None => None,
            Some(a) => {
                let place = if matching::by_time(self.video) {
                    matching::match_of(seg, self.video.timescale, a)
                } else {
                    last_numbered(a.segments, seg.number, a.segments.len() as int)
                };
                match place {
                    Some(i) => Some(a.segments[i]),
                    None => None,
                }
            },
        }
    }

    /// What becomes of the segments from the place `i` on, behind `jobs`: the first without its
    /// audio ends the round.
    pub open spec fn singles(self, i: int, jobs: Seq<JobView>) -> RoundView
        decreases self.video.segments.len() - i,
    {
        if i < 0 || i >= self.video.segments.len() {
            RoundView {
                jobs,
                boundary: false,
                next_number: self.next,
                wait: AudioWait::over(),
            }
        } else {
            let seg = self.video.segments[i];
            if seg.number < self.next {
                self.singles(i + 1, jobs)
            } else if self.audio_required && self.audio_of(seg) is None {
                let w = self.wait.waited(seg.number);
                if self.is_dynamic && jobs.len() == 0 && w.refreshes
                    >= AUDIO_MATCH_MAX_WAIT_REFRESHES {
                    RoundView {
                        jobs,
                        boundary: true,
                        next_number: if seg.number == u64::MAX {
                            u64::MAX
                        } else {
                            (seg.number + 1) as u64
                        },
                        wait: AudioWait::over(),
                    }
                } else {
                    RoundView { jobs, boundary: false, next_number: self.next, wait: w }
                }
            } else {
                self.singles(
                    i + 1,
                    jobs.push(grouping::job_of(self.video, seg, self.audio_of(seg), self.subtitle)),
                )
            }
        }
    }

    /// What the round does: a live source of short segments goes by groups.
    pub open spec fn round(self, is_live: bool) -> RoundView {
        let size = grouping::group_size_of(self.video);
        if is_live && size is Some {
            self.grouped(
                (GroupSource {
                    video: self.video,
                    audio: self.audio,
                    subtitle: self.subtitle,
                    audio_required: self.audio_required,
                    size: size->0,
                }).plan(self.next),
            )
        } else {
            self.singles(0, Seq::empty())
        }
    }
}

fn find_last<'a>(rep: &'a Representation, number: u64) -> (r: Option<&'a SegmentRef>)
    ensures
        match r {
            Some(s) => last_numbered(rep@.segments, number, rep@.segments.len() as int) matches Some(
                i,
            ) && 0 <= i < rep@.segments.len() && s@ == rep@.segments[i],
            None => last_numbered(rep@.segments, number, rep@.segments.len() as int) is None,
        },
{
    let ghost s = rep@.segments;
    let mut n: usize = rep.segments.len();
    while n > 0
        invariant
            s == rep@.segments,
            n <= rep.segments@.len(),
            last_numbered(s, number, s.len() as int) == last_numbered(s, number, n as int),
        decreases n,
    {
        assert(s[n - 1] == rep.segments@[n - 1]@);
        if rep.segments[n - 1].number == number {
            return Some(&rep.segments[n - 1]);
        }
        n = n - 1;
    }
    None
}

fn find_audio<'a>(
    video: &Representation,
    seg: &SegmentRef,
    audio: Option<&'a Representation>,
    by_time: bool,
    src: Ghost<RoundSource>,
) -> (r: Option<&'a SegmentRef>)
    requires
        src@.video == video@,
        src@.audio == grouping::opt_rep(audio),
        by_time == matching::by_time(video@),
    ensures
        grouping::opt_segment(r) == src@.audio_of(seg@),
{
    match audio {
        None => None,
        Some(a) => {
            if by_time {
                matching::match_audio_segment_by_time(seg, video.timescale, a)
            } else {
                find_last(a, seg.number)
            }
        },
    }
}

fn group_round(
    plan: ShortSourceJobPlan,
    is_dynamic: bool,
    next_number: u64,
    wait: AudioWait,
    src: Ghost<RoundSource>,
) -> (r: Round)
    requires
        src@.is_dynamic == is_dynamic,
        src@.next == next_number,
        src@.wait == wait,
    ensures
        r@ == src@.grouped(plan@),
{
    assert(plan@.jobs.len() == plan.jobs@.len());
    if plan.jobs.len() == 0 {
        if let Some(b) = plan.blocked_on_audio {
            let w: AudioWait = wait.wait_for(b.seg);
            if is_dynamic && w.refreshes >= AUDIO_MATCH_MAX_WAIT_REFRESHES {
                return Round {
                    jobs: plan.jobs,
                    boundary: true,
                    next_number: b.skip_to,
                    wait: AudioWait::none(),
                };
            }
            return Round {
                jobs: plan.jobs,
                boundary: plan.skipped_incomplete_head,
                next_number,
                wait: w,
            };
        }
    }
    Round {
        jobs: plan.jobs,
        boundary: plan.skipped_incomplete_head,
        next_number,
        wait: AudioWait::none(),
    }
}

fn single_round(
    video: &Representation,
    audio: Option<&Representation>,
    subtitle: Option<&Representation>,
    audio_required: bool,
    is_dynamic: bool,
    next_number: u64,
    wait: AudioWait,
    src: Ghost<RoundSource>,
) -> (r: Round)
    requires
        src@ == (RoundSource {
            video: video@,
            audio: grouping::opt_rep(audio),
            subtitle: grouping::opt_rep(subtitle),
            audio_required,
            is_dynamic,
            next: next_number,
            wait,
        }),
    ensures
        r@ == src@.singles(0, Seq::empty()),
{
    let by_time: bool = matching::is_time_template(video);
    let mut jobs: Vec<SegmentJob> = Vec::new();
    assert(grouping::job_views(jobs@) =~= Seq::<JobView>::empty());
    let n: usize = video.segments.len();
    let ghost all = src@.singles(0, Seq::empty());
    let mut i: usize = 0;
    while i < n
        invariant
            n == video.segments@.len(),
            i <= n,
            by_time == matching::by_time(video@),
            src@ == (RoundSource {
                video: video@,
                audio: grouping::opt_rep(audio),
                subtitle: grouping::opt_rep(subtitle),
                audio_required,
                is_dynamic,
                next: next_number,
                wait,
            }),
            all == src@.singles(0, Seq::empty()),
            all == src@.singles(i as int, grouping::job_views(jobs@)),
        decreases n - i,
    {
        let seg: &SegmentRef = &video.segments[i];
        assert(video@.segments[i as int] == seg@);
        assert(grouping::job_views(jobs@).len() == jobs@.len());
        if seg.number >= next_number {
            let found: Option<&SegmentRef> = find_audio(video, seg, audio, by_time, src);
            if audio_required && found.is_none() {
                let w: AudioWait = wait.wait_for(seg.number);
                if is_dynamic && jobs.len() == 0 && w.refreshes >= AUDIO_MATCH_MAX_WAIT_REFRESHES {
                    let next: u64 = if seg.number == u64::MAX {
                        u64::MAX
                    } else {
                        seg.number + 1
                    };
                    return Round {
                        jobs,
                        boundary: true,
                        next_number: next,
                        wait: AudioWait::none(),
                    };
                }
                return Round { jobs, boundary: false, next_number, wait: w };
            }
            let job: SegmentJob = grouping::make_job(video, seg, found, subtitle);
            let ghost before = jobs@;
            jobs.push(job);
            assert(grouping::job_views(jobs@) =~= grouping::job_views(before).push(job@));
        }
        i = i + 1;
    }
    Round { jobs, boundary: false, next_number, wait: AudioWait::none() }
}

/// What the next round of a source does.
pub fn plan_round(
    video: &Representation,
    audio: Option<&Representation>,
    subtitle: Option<&Representation>,
    audio_required: bool,
    is_live: bool,
    is_dynamic: bool,
    next_number: u64,
    wait: AudioWait,
) -> (r: Round)
    ensures
        r@ == (RoundSource {
            video: video@,
            audio: grouping::opt_rep(audio),
            subtitle: grouping::opt_rep(subtitle),
            audio_required,
            is_dynamic,
            next: next_number,
            wait,
        }).round(is_live),
{
    let ghost src = RoundSource {
        video: video@,
        audio: grouping::opt_rep(audio),
        subtitle: grouping::opt_rep(subtitle),
        audio_required,
        is_dynamic,
        next: next_number,
        wait,
    };
    if is_live {
        if let Some(size) = grouping::short_source_group_size(video) {
            let plan: ShortSourceJobPlan = grouping::build_short_source_live_jobs(
                video,
                audio,
                subtitle,
                audio_required,
                next_number,
                size,
            );
            return group_round(plan, is_dynamic, next_number, wait, Ghost(src));
        }
    }
    single_round(
        video,
        audio,
        subtitle,
        audio_required,
        is_dynamic,
        next_number,
        wait,
        Ghost(src),
    )
}

proof fn lemma_singles_have_audio(s: RoundSource, i: int, jobs: Seq<JobView>, k: int)
    requires
        s.audio_required,
        0 <= i,
        forall|j: int| 0 <= j < jobs.len() ==> (#[trigger] jobs[j]).aurl is Some && jobs[j].num
            >= s.next,
        0 <= k < s.singles(i, jobs).jobs.len(),
    ensures
        s.singles(i, jobs).jobs[k].aurl is Some,
        s.singles(i, jobs).jobs[k].num >= s.next,
    decreases s.video.segments.len() - i,
{
    if i < s.video.segments.len() {
        let seg = s.video.segments[i];
        if seg.number < s.next {
            lemma_singles_have_audio(s, i + 1, jobs, k);
        } else if s.audio_of(seg) is Some {
            lemma_singles_have_audio(
                s,
                i + 1,
                jobs.push(grouping::job_of(s.video, seg, s.audio_of(seg), s.subtitle)),
                k,
            );
        }
    }
}

/// Where audio is required, no segment is fetched without the audio that belongs to it.
pub proof fn law_jobs_have_audio(s: RoundSource, is_live: bool, k: int)
    requires
        s.audio_required,
        0 <= k < s.round(is_live).jobs.len(),
    ensures
        s.round(is_live).jobs[k].aurl is Some,
{
    let size = grouping::group_size_of(s.video);
    if is_live && size is Some {
        grouping::law_group_jobs_have_audio(
            GroupSource {
                video: s.video,
                audio: s.audio,
                subtitle: s.subtitle,
                audio_required: s.audio_required,
                size: size->0,
            },
            s.next,
            k,
        );
    } else {
        lemma_singles_have_audio(s, 0, Seq::empty(), k);
    }
}

/// A source that can give up never waits longer than the limit for one segment: where it still
/// waits, with nothing to fetch, the count is below the limit.
pub proof fn law_waits_end(s: RoundSource, is_live: bool)
    requires
        s.is_dynamic,
        s.round(is_live).jobs.len() == 0,
    ensures
        s.round(is_live).wait.refreshes < AUDIO_MATCH_MAX_WAIT_REFRESHES,
{
    if !(is_live && grouping::group_size_of(s.video) is Some) {
        lemma_singles_wait(s, 0, Seq::empty());
    }
}

proof fn lemma_singles_wait(s: RoundSource, i: int, jobs: Seq<JobView>)
    requires
        s.is_dynamic,
        s.singles(i, jobs).jobs.len() == 0,
    ensures
        s.singles(i, jobs).wait.refreshes < AUDIO_MATCH_MAX_WAIT_REFRESHES,
    decreases s.video.segments.len() - i,
{
    if 0 <= i < s.video.segments.len() {
        let seg = s.video.segments[i];
        if seg.number < s.next {
            lemma_singles_wait(s, i + 1, jobs);
        } else if s.audio_required && s.audio_of(seg) is None {
        } else {
            lemma_singles_wait(
                s,
                i + 1,
                jobs.push(grouping::job_of(s.video, seg, s.audio_of(seg), s.subtitle)),
            );
        }
    }
}

/// The duration of the last segment of a track.
pub open spec fn last_span(rep: RepresentationView) -> Span {
    Span {
        ticks: if rep.segments.len() > 0 {
            rep.segments.last().duration_ts
        } else {
            0
        },
        scale: rep.timescale,
    }
}

/// The duration of the last segment of a track; 0 where there is none.
pub fn representation_segment_duration(rep: &Representation) -> (r: Span)
    ensures
        r == last_span(rep@),
{
    let n: usize = rep.segments.len();
    assert(rep@.segments.len() == n);
    let ticks: u64 = if n > 0 {
        assert(rep@.segments[n - 1] == rep.segments@[n - 1]@);
        rep.segments[n - 1].duration_ts
    } else {
        0
    };
    Span { ticks, scale: rep.timescale }
}

/// The duration of the last segment of a track; a second where there is none.
pub fn refresh_segment_duration(rep: &Representation) -> (r: Span)
    ensures
        r == (if rep@.segments.len() > 0 {
            last_span(rep@)
        } else {
            Span { ticks: rep@.timescale as u64, scale: rep@.timescale }
        }),
{
    assert(rep@.segments.len() == rep.segments@.len());
    if rep.segments.len() > 0 {
        representation_segment_duration(rep)
    } else {
        Span { ticks: rep.timescale as u64, scale: rep.timescale }
    }
}

/// Where a source is entered: where it was left, at the start of a source that ends, or some
/// segments before the newest of one that goes on.
pub open spec fn entry_of(
    video: RepresentationView,
    is_live: bool,
    resume: u64,
    backfill: u64,
) -> Option<u64> {
    let s = video.segments;
    if s.len() == 0 {
        None
    } else if resume > s[0].number {
        Some(resume)
    } else if !is_live {
        Some(s[0].number)
    } else {
        let back = if backfill < 1 {
            1
        } else {
            backfill as int
        };
        if back >= s.len() {
            Some(s[0].number)
        } else {
            Some(s[s.len() - back].number)
        }
    }
}

/// Where a source is entered. Of a live one the place is counted in segments, since its numbers
/// may be times.
pub fn initial_next_number(
    video: &Representation,
    is_live: bool,
    resume: u64,
    live_backfill_segments: u64,
) -> (r: Option<u64>)
    ensures
        r == entry_of(video@, is_live, resume, live_backfill_segments),
{
    let n: usize = video.segments.len();
    assert(video@.segments.len() == n);
    if n == 0 {
        return None;
    }
    assert(video@.segments[0] == video.segments@[0]@);
    let first: u64 = video.segments[0].number;
    if resume > first {
        return Some(resume);
    }
    if !is_live || live_backfill_segments >= n as u64 {
        return Some(first);
    }
    let back: usize = if live_backfill_segments < 1 {
        1
    } else {
        live_backfill_segments as usize
    };
    let at: usize = n - back;
    assert(video@.segments[at as int] == video.segments@[at as int]@);
    Some(video.segments[at].number)
}

proof fn lemma_last_numbered(s: Seq<SegmentRefView>, number: u64, n: int)
    requires
        0 <= n <= s.len(),
    ensures
        match last_numbered(s, number, n) {
            Some(i) => 0 <= i < n && s[i].number == number && forall|k: int|
                i < k < n ==> (#[trigger] s[k]).number != number,
            None => forall|k: int| 0 <= k < n ==> (#[trigger] s[k]).number != number,
        },
    decreases n,
{
    if n > 0 {
        lemma_last_numbered(s, number, n - 1);
    }
}

/// Where segments are numbered, the audio of a video segment has its number, and it is found
/// wherever there is such audio.
pub proof fn law_audio_has_number_of_video(
    src: RoundSource,
    audio: RepresentationView,
    seg: SegmentRefView,
)
    requires
        src.audio == Some(audio),
        !matching::by_time(src.video),
    ensures
        src.audio_of(seg) matches Some(a) ==> a.number == seg.number && audio.segments.contains(a),
        src.audio_of(seg) is Some <==> exists|i: int|
            0 <= i < audio.segments.len() && (#[trigger] audio.segments[i]).number == seg.number,
{
    lemma_last_numbered(audio.segments, seg.number, audio.segments.len() as int);
}

/// How many segments from `i` on have a number that is not below `next`.
pub open spec fn still_to_come(s: Seq<SegmentRefView>, next: u64, i: int) -> int
    decreases s.len() - i,
{
    if i < 0 || i >= s.len() {
        0
    } else {
        (if s[i].number >= next {
            1int
        } else {
            0
        }) + still_to_come(s, next, i + 1)
    }
}

proof fn lemma_singles(src: RoundSource, i: int, jobs: Seq<JobView>)
    requires
        0 <= i <= src.video.segments.len(),
        forall|k: int|
            i <= k < src.video.segments.len() && (#[trigger] src.video.segments[k]).number
                >= src.next && src.audio_required ==> src.audio_of(src.video.segments[k]) is Some,
        forall|a: int, b: int|
            0 <= a < b < src.video.segments.len() ==> src.video.segments[a].number
                < src.video.segments[b].number,
    ensures
        ({
            let r = src.singles(i, jobs);
            let s = src.video.segments;
            &&& r.jobs.len() == jobs.len() + still_to_come(s, src.next, i)
            &&& still_to_come(s, src.next, i) >= 0
            &&& r.jobs.take(jobs.len() as int) == jobs
            &&& forall|k: int|
                #![trigger s[k]]
                i <= k < s.len() && s[k].number >= src.next ==> exists|m: int|
                    jobs.len() <= m < r.jobs.len() && (#[trigger] r.jobs[m]).num == s[k].number
                        && r.jobs[m].vurl == s[k].url && r.jobs[m].video_dur_ts == s[k].duration_ts
            &&& !r.boundary && r.next_number == src.next && r.wait == AudioWait::over()
        }),
    decreases src.video.segments.len() - i,
{
    let s = src.video.segments;
    let r = src.singles(i, jobs);
    if i < s.len() {
        let seg = s[i];
        if seg.number < src.next {
            lemma_singles(src, i + 1, jobs);
        } else {
            let job = grouping::job_of(src.video, seg, src.audio_of(seg), src.subtitle);
            let more = jobs.push(job);
            assert(s[i].number >= src.next);
            lemma_singles(src, i + 1, more);
            assert(r == src.singles(i + 1, more));
            assert(r.jobs[jobs.len() as int] == job) by {
                assert(r.jobs.take(more.len() as int)[jobs.len() as int] == job);
            }
            assert(r.jobs.take(jobs.len() as int) =~= jobs) by {
                assert forall|k: int| 0 <= k < jobs.len() implies r.jobs[k] == jobs[k] by {
                    assert(r.jobs.take(more.len() as int)[k] == more[k]);
                }
            }
            assert forall|k: int|
                #![trigger s[k]]
                i <= k < s.len() && s[k].number >= src.next implies exists|m: int|
                jobs.len() <= m < r.jobs.len() && (#[trigger] r.jobs[m]).num == s[k].number
                    && r.jobs[m].vurl == s[k].url && r.jobs[m].video_dur_ts == s[k].duration_ts by {
                if k == i {
                    assert(r.jobs[jobs.len() as int].num == s[k].number);
                } else {
                    let m = choose|m: int|
                        more.len() <= m < r.jobs.len() && (#[trigger] r.jobs[m]).num == s[k].number
                            && r.jobs[m].vurl == s[k].url && r.jobs[m].video_dur_ts
                            == s[k].duration_ts;
                    assert(r.jobs[m].num == s[k].number);
                }
            }
        }
    } else {
        assert(r.jobs.take(jobs.len() as int) =~= jobs);
    }
}

/// Where no audio is missing, each segment from the next number on is fetched once, from its
/// address, and none before it.
pub proof fn law_due_segments_are_fetched(src: RoundSource)
    requires
        forall|k: int|
            0 <= k < src.video.segments.len() && (#[trigger] src.video.segments[k]).number
                >= src.next && src.audio_required ==> src.audio_of(src.video.segments[k]) is Some,
        forall|a: int, b: int|
            0 <= a < b < src.video.segments.len() ==> src.video.segments[a].number
                < src.video.segments[b].number,
    ensures
        ({
            let r = src.round(false);
            let s = src.video.segments;
            &&& r.jobs.len() == still_to_come(s, src.next, 0)
            &&& forall|k: int|
                #![trigger s[k]]
                0 <= k < s.len() && s[k].number >= src.next ==> exists|m: int|
                    0 <= m < r.jobs.len() && (#[trigger] r.jobs[m]).num == s[k].number
                        && r.jobs[m].vurl == s[k].url && r.jobs[m].video_dur_ts == s[k].duration_ts
            &&& !r.boundary && r.next_number == src.next && r.wait == AudioWait::over()
        }),
{
    lemma_singles(src, 0, Seq::empty());
}

/// A live source is entered as many segments before its end as are asked for, at least one and at
/// most all; a source that ends at its start; and either where it was left, if that lies ahead.
pub proof fn law_source_is_entered(
    video: RepresentationView,
    resume: u64,
    backfill: u64,
)
    requires
        video.segments.len() > 0,
    ensures
        resume > video.segments[0].number ==> forall|live: bool|
            #[trigger] entry_of(video, live, resume, backfill) == Some(resume),
        resume <= video.segments[0].number ==> {
            let n = video.segments.len() as int;
            &&& entry_of(video, false, resume, backfill) == Some(video.segments[0].number)
            &&& forall|b: int|
                1 <= b <= n && (b == backfill || b == 1 && backfill == 0 || b == n && backfill > n)
                    ==> entry_of(video, true, resume, backfill) == Some(
                    (#[trigger] video.segments[n - b]).number,
                )
        },
{
}

} // verus!
