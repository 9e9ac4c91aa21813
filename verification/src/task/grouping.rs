//! Short segments in groups: how many make a group, which belong together, and which groups are
//! whole.

use vstd::prelude::*;

use super::coverage;
use super::coverage::Interval;
use super::live_tuning::{AGGREGATE_TARGET_S, SHORT_SEG_THRESHOLD_S};
use super::matching;
use super::matching::{MIN_MEDIA_COVERAGE_DEN, MIN_MEDIA_COVERAGE_NUM};
use crate::mpd::parser;
use crate::mpd::parser::{Representation, RepresentationView, SegmentRef, SegmentRefView};
use crate::text;

verus! {

/// Segments that a source has to have before it counts as short.
pub const SHORT_SOURCE_MIN_SEGMENTS: usize = 2;

/// Milliseconds that audio may miss at either end of a group.
pub const SHORT_GROUP_AUDIO_EDGE_SLACK_MS: i128 = 120;

/// The duration of the first `n` segments.
pub open spec fn total_ticks(s: Seq<SegmentRefView>, n: int) -> int
    decreases n,
{
    if n <= 0 {
        0
    } else {
        total_ticks(s, n - 1) + s[n - 1].duration_ts
    }
}

/// How many of the first `n` segments are short.
pub open spec fn short_count(s: Seq<SegmentRefView>, rate: int, n: int) -> int
    decreases n,
{
    if n <= 0 {
        0
    } else {
        short_count(s, rate, n - 1) + if s[n - 1].duration_ts < SHORT_SEG_THRESHOLD_S * rate {
            1int
        } else {
            0
        }
    }
}

/// How many segments of a source make a group: at least three quarters of them have to be short,
/// as has the average, and none may be empty.
pub open spec fn group_size_of(rep: RepresentationView) -> Option<int> {
    let s = rep.segments;
    let n = s.len() as int;
    let rate = matching::rate(rep.timescale);
    let total = total_ticks(s, n);
    if n < SHORT_SOURCE_MIN_SEGMENTS || exists|i: int|
        0 <= i < n && (#[trigger] s[i]).duration_ts == 0 {
        None
    } else if total >= SHORT_SEG_THRESHOLD_S * (rate * n) || short_count(s, rate, n) * 4 < n * 3 {
        None
    } else {
        let g = (2 * AGGREGATE_TARGET_S * (rate * n) + total) / (2 * total);
        Some(
            if g < 2 {
                2
            } else if g > usize::MAX {
                usize::MAX as int
            } else {
                g
            },
        )
    }
}

/// How many segments of a source make a group, if they are short.
pub fn short_source_group_size(rep: &Representation) -> (r: Option<usize>)
    ensures
        match r {
            Some(g) => group_size_of(rep@) == Some(g as int) && g >= 2,
            None => group_size_of(rep@) is None,
        },
{
    let ghost s = rep@.segments;
    let n: usize = rep.segments.len();
    assert(s.len() == n);
    if n < SHORT_SOURCE_MIN_SEGMENTS {
        return None;
    }
    let rate: u64 = matching::to_rate(rep.timescale);
    let mut total: u128 = 0;
    let mut short: usize = 0;
    for i in 0..n
        invariant
            n == rep.segments@.len(),
            s == rep@.segments,
            rate == matching::rate(rep.timescale),
            1 <= rate <= u32::MAX,
            total == total_ticks(s, i as int),
            total <= i * 0xffff_ffff_ffff_ffff,
            total >= i,
            short == short_count(s, rate as int, i as int),
            short <= i,
            forall|j: int| 0 <= j < i ==> (#[trigger] s[j]).duration_ts > 0,
    {
        assert(s[i as int] == rep.segments@[i as int]@);
        let d: u64 = rep.segments[i].duration_ts;
        if d == 0 {
            return None;
        }
        if (d as u128) < SHORT_SEG_THRESHOLD_S as u128 * rate as u128 {
            short = short + 1;
        }
        total = total + d as u128;
    }
    assert(0 <= rate * n <= 0xffff_ffff * 0xffff_ffff_ffff_ffff) by (nonlinear_arith)
        requires
            1 <= rate <= 0xffff_ffff,
            0 <= n <= 0xffff_ffff_ffff_ffff,
    ;
    let weight: u128 = rate as u128 * n as u128;
    if total >= SHORT_SEG_THRESHOLD_S as u128 * weight || (short as u128) * 4 < (n as u128) * 3 {
        return None;
    }
    let g: u128 = (2 * AGGREGATE_TARGET_S as u128 * weight + total) / (2 * total);
    if g < 2 {
        Some(2)
    } else if g > usize::MAX as u128 {
        Some(usize::MAX)
    } else {
        Some(g as usize)
    }
}

/// The average duration of segments, to the nearest tick.
pub open spec fn nominal_of(s: Seq<SegmentRefView>) -> int {
    let n = s.len() as int;
    if n == 0 {
        1
    } else {
        let a = (total_ticks(s, n) + n / 2) / n;
        if a < 1 {
            1
        } else {
            a
        }
    }
}

/// The average duration of segments, to the nearest tick.
pub fn nominal_segment_duration_ts(rep: &Representation) -> (r: u64)
    ensures
        r == nominal_of(rep@.segments),
        r >= 1,
{
    let ghost s = rep@.segments;
    let n: usize = rep.segments.len();
    assert(s.len() == n);
    if n == 0 {
        return 1;
    }
    let mut total: u128 = 0;
    for i in 0..n
        invariant
            n == rep.segments@.len(),
            s == rep@.segments,
            total == total_ticks(s, i as int),
            total <= i * 0xffff_ffff_ffff_ffff,
    {
        assert(s[i as int] == rep.segments@[i as int]@);
        total = total + rep.segments[i].duration_ts as u128;
    }
    let half: u128 = n as u128 / 2;
    let a: u128 = (total + half) / n as u128;
    assert(a <= 0xffff_ffff_ffff_ffff) by {
        assert((total + half) / n as int <= 0xffff_ffff_ffff_ffff) by (nonlinear_arith)
            requires
                n >= 1,
                total <= n * 0xffff_ffff_ffff_ffff,
                half < n,
        ;
    }
    if a < 1 {
        1
    } else {
        a as u64
    }
}

/// The group that a segment belongs to.
pub open spec fn group_id_of(
    rep: RepresentationView,
    idx: int,
    size: int,
    nominal: int,
) -> int {
    let s = rep.segments[idx];
    let ordinal = if matching::by_time(rep) {
        s.number as int / nominal
    } else {
        let behind = if s.number < rep.start_number {
            0
        } else {
            s.number - rep.start_number
        };
        if behind >= idx {
            behind
        } else {
            idx
        }
    };
    ordinal / size
}

fn short_source_group_id(
    rep: &Representation,
    idx: usize,
    size: usize,
    nominal: u64,
    time_template: bool,
) -> (r: u64)
    requires
        idx < rep.segments@.len(),
        size > 0,
        nominal > 0,
        time_template == matching::by_time(rep@),
    ensures
        r == group_id_of(rep@, idx as int, size as int, nominal as int),
{
    assert(rep@.segments[idx as int] == rep.segments@[idx as int]@);
    let number: u64 = rep.segments[idx].number;
    let ordinal: u64 = if time_template {
        number / nominal
    } else {
        let behind: u64 = if number < rep.start_number {
            0
        } else {
            number - rep.start_number
        };
        if behind >= idx as u64 {
            behind
        } else {
            idx as u64
        }
    };
    ordinal / size as u64
}

/// A group of segments, by their places.
pub struct GroupView {
    pub id: u64,
    pub members: Seq<int>,
}

/// The place of a group in the order of the identifiers.
pub open spec fn group_slot(g: Seq<GroupView>, id: u64, i: int) -> int
    decreases g.len() - i,
{
    if i < 0 || i >= g.len() {
        i
    } else if g[i].id >= id {
        i
    } else {
        group_slot(g, id, i + 1)
    }
}

/// Groups with one more member in one of them.
pub open spec fn with_member(g: Seq<GroupView>, id: u64, idx: int) -> Seq<GroupView> {
    let p = group_slot(g, id, 0);
    if p < g.len() && g[p].id == id {
        g.update(p, GroupView { id, members: g[p].members.push(idx) })
    } else {
        g.insert(p, GroupView { id, members: seq![idx] })
    }
}

/// The groups of the first `n` segments, without those before `next`.
pub open spec fn groups_of(rep: RepresentationView, next: u64, size: int, n: int) -> Seq<GroupView>
    decreases n,
{
    if n <= 0 {
        Seq::empty()
    } else {
        let g = groups_of(rep, next, size, n - 1);
        if rep.segments[n - 1].number < next {
            g
        } else {
            with_member(
                g,
                group_id_of(rep, n - 1, size, nominal_of(rep.segments)) as u64,
                n - 1,
            )
        }
    }
}

struct Group {
    id: u64,
    members: Vec<usize>,
}

spec fn places(v: Seq<usize>) -> Seq<int> {
    v.map_values(|x: usize| x as int)
}

spec fn group_views(v: Seq<Group>) -> Seq<GroupView> {
    v.map_values(|g: Group| GroupView { id: g.id, members: places(g.members@) })
}

spec fn members_below(v: Seq<Group>, n: int) -> bool {
    forall|i: int|
        0 <= i < v.len() ==> (#[trigger] v[i]).members@.len() > 0 && forall|j: int|
            0 <= j < v[i].members@.len() ==> (#[trigger] v[i].members@[j]) < n
}

fn add_member(groups: &mut Vec<Group>, id: u64, idx: usize)
    requires
        members_below(old(groups)@, idx as int),
    ensures
        group_views(final(groups)@) == with_member(group_views(old(groups)@), id, idx as int),
        members_below(final(groups)@, idx + 1),
{
    let ghost g = group_views(groups@);
    let ghost was = groups@;
    let n: usize = groups.len();
    let mut p: usize = 0;
    while p < n && groups[p].id < id
        invariant
            n == groups@.len(),
            p <= n,
            groups@ == was,
            g == group_views(groups@),
            group_slot(g, id, 0) == group_slot(g, id, p as int),
        decreases n - p,
    {
        assert(g[p as int].id == groups@[p as int].id);
        p = p + 1;
    }
    assert(p < n ==> g[p as int].id == groups@[p as int].id);
    assert(group_slot(g, id, p as int) == p);
    if p < n && groups[p].id == id {
        let mut x: Group = groups.remove(p);
        let ghost before = x.members@;
        x.members.push(idx);
        assert(places(x.members@) =~= places(before).push(idx as int));
        groups.insert(p, x);
        assert(group_views(groups@) =~= with_member(g, id, idx as int));
        assert(members_below(groups@, idx + 1)) by {
            assert forall|i: int| 0 <= i < groups@.len() implies (
            #[trigger] groups@[i]).members@.len() > 0 && forall|j: int|
                0 <= j < groups@[i].members@.len() ==> (#[trigger] groups@[i].members@[j]) < idx
                    + 1 by {
                if i != p {
                    assert(groups@[i] == was[i]);
                } else {
                    assert(was[i].members@ == before);
                    assert forall|j: int| 0 <= j < groups@[i].members@.len() implies (
                    #[trigger] groups@[i].members@[j]) < idx + 1 by {
                        if j < before.len() {
                            assert(was[i].members@[j] < idx);
                        }
                    }
                }
            }
        }
    } else {
        let mut members: Vec<usize> = Vec::new();
        members.push(idx);
        assert(places(members@) =~= seq![idx as int]);
        groups.insert(p, Group { id, members });
        assert(group_views(groups@) =~= with_member(g, id, idx as int));
        assert(members_below(groups@, idx + 1)) by {
            assert forall|i: int| 0 <= i < groups@.len() implies (
            #[trigger] groups@[i]).members@.len() > 0 && forall|j: int|
                0 <= j < groups@[i].members@.len() ==> (#[trigger] groups@[i].members@[j]) < idx
                    + 1 by {
                if i < p {
                    assert(groups@[i] == was[i]);
                } else if i > p {
                    assert(groups@[i] == was[i - 1]);
                }
            }
        }
    }
}

fn short_source_video_groups(rep: &Representation, next: u64, size: usize) -> (r: Vec<Group>)
    requires
        size > 0,
    ensures
        group_views(r@) == groups_of(rep@, next, size as int, rep@.segments.len() as int),
        members_below(r@, rep.segments@.len() as int),
{
    let nominal: u64 = nominal_segment_duration_ts(rep);
    let time_template: bool = matching::is_time_template(rep);
    let mut out: Vec<Group> = Vec::new();
    assert(group_views(out@) =~= Seq::<GroupView>::empty());
    for i in 0..rep.segments.len()
        invariant
            size > 0,
            nominal == nominal_of(rep@.segments),
            nominal > 0,
            time_template == matching::by_time(rep@),
            group_views(out@) == groups_of(rep@, next, size as int, i as int),
            members_below(out@, i as int),
    {
        assert(rep@.segments[i as int] == rep.segments@[i as int]@);
        if rep.segments[i].number >= next {
            let id: u64 = short_source_group_id(rep, i, size, nominal, time_template);
            add_member(&mut out, id, i);
        }
    }
    assert(rep@.segments.len() == rep.segments@.len());
    out
}

/// The first segment from `i` on with a number.
pub open spec fn by_number(s: Seq<SegmentRefView>, number: u64, i: int) -> Option<int>
    decreases s.len() - i,
{
    if i < 0 || i >= s.len() {
        None
    } else if s[i].number == number {
        Some(i)
    } else {
        by_number(s, number, i + 1)
    }
}

/// The place of the audio segment that belongs to a video segment: by time or by number.
pub open spec fn audio_for(
    video: RepresentationView,
    seg: SegmentRefView,
    audio: RepresentationView,
) -> Option<int> {
    if matching::by_time(video) {
        matching::match_of(seg, video.timescale, audio)
    } else {
        by_number(audio.segments, seg.number, 0)
    }
}

/// The audio segment that belongs to a video segment.
pub fn match_audio_segment_for_video<'a>(
    video: &Representation,
    video_seg: &SegmentRef,
    audio: &'a Representation,
) -> (r: Option<&'a SegmentRef>)
    ensures
        match r {
            Some(s) => audio_for(video@, video_seg@, audio@) matches Some(i) && 0 <= i
                < audio@.segments.len() && s@ == audio@.segments[i],
            None => audio_for(video@, video_seg@, audio@) is None,
        },
{
    if matching::is_time_template(video) {
        return matching::match_audio_segment_by_time(video_seg, video.timescale, audio);
    }
    let n: usize = audio.segments.len();
    let ghost s = audio@.segments;
    let mut i: usize = 0;
    while i < n
        invariant
            n == audio.segments@.len(),
            s == audio@.segments,
            !matching::by_time(video@),
            by_number(s, video_seg@.number, 0) == by_number(s, video_seg@.number, i as int),
        decreases n - i,
    {
        assert(s[i as int] == audio.segments@[i as int]@);
        if audio.segments[i].number == video_seg.number {
            return Some(&audio.segments[i]);
        }
        i = i + 1;
    }
    None
}

/// The audio segments that belong to the first `n` members of a group, if each has one.
pub open spec fn audio_of_group(
    video: RepresentationView,
    members: Seq<int>,
    audio: RepresentationView,
    n: int,
) -> Option<Seq<SegmentRefView>>
    decreases n,
{
    if n <= 0 {
        Some(Seq::empty())
    } else {
        match (
            audio_of_group(video, members, audio, n - 1),
            audio_for(video, video.segments[members[n - 1]], audio),
        ) {
            (Some(m), Some(i)) => Some(m.push(audio.segments[i])),
            _ => None,
        }
    }
}

/// The part of a stretch, and of a slack around it, that lies between two bounds.
pub open spec fn clipped(a: matching::Stretch, from: int, to: int, slack: int) -> Interval {
    let lo = a.start - slack;
    let hi = a.end() + slack;
    Interval {
        from: (if lo > from {
            lo
        } else {
            from
        }) as i128,
        to: (if hi < to {
            hi
        } else {
            to
        }) as i128,
    }
}

/// Whether a number comes among the first `n` segments.
pub open spec fn seen(s: Seq<SegmentRefView>, number: u64, n: int) -> bool {
    exists|j: int| 0 <= j < n && (#[trigger] s[j]).number == number
}

/// The parts of a group that the first `n` of its audio segments cover.
pub open spec fn covered_parts(
    m: Seq<SegmentRefView>,
    n: int,
    other: int,
    from: int,
    to: int,
    slack: int,
) -> Seq<Interval>
    decreases n,
{
    if n <= 0 {
        Seq::empty()
    } else {
        let p = covered_parts(m, n - 1, other, from, to, slack);
        let c = clipped(matching::stretch_of(m[n - 1], other), from, to, slack);
        if seen(m, m[n - 1].number, n - 1) || c.to <= c.from {
            p
        } else {
            p.push(c)
        }
    }
}

/// Whether audio segments cover nine tenths of a group, with some slack at their ends.
pub open spec fn covers_group(
    video: RepresentationView,
    members: Seq<int>,
    audio: RepresentationView,
    m: Seq<SegmentRefView>,
) -> bool {
    let v = matching::rate(video.timescale);
    let a = matching::rate(audio.timescale);
    let first = matching::stretch_of(video.segments[members[0]], a);
    let last = matching::stretch_of(video.segments[members.last()], a);
    let from = first.start as int;
    let to = last.end();
    &&& to > from
    &&& coverage::points(
        covered_parts(
            m,
            m.len() as int,
            v,
            from,
            to,
            SHORT_GROUP_AUDIO_EDGE_SLACK_MS * (v * a),
        ),
    ).len() * MIN_MEDIA_COVERAGE_DEN >= (to - from) * MIN_MEDIA_COVERAGE_NUM
}

/// The audio segments of a group, if each member has one and they cover it.
pub open spec fn group_audio(
    video: RepresentationView,
    members: Seq<int>,
    audio: RepresentationView,
) -> Option<Seq<SegmentRefView>> {
    match audio_of_group(video, members, audio, members.len() as int) {
        Some(m) => if covers_group(video, members, audio, m) {
            Some(m)
        } else {
            None
        },
        None => None,
    }
}

fn is_seen(m: &[SegmentRef], number: u64, n: usize) -> (r: bool)
    requires
        n <= m@.len(),
    ensures
        r == seen(parser::segment_views(m@), number, n as int),
{
    let ghost s = parser::segment_views(m@);
    for j in 0..n
        invariant
            n <= m@.len(),
            s == parser::segment_views(m@),
            forall|k: int| 0 <= k < j ==> (#[trigger] s[k]).number != number,
    {
        assert(s[j as int] == m@[j as int]@);
        if m[j].number == number {
            return true;
        }
    }
    false
}

fn to_clipped(s: &SegmentRef, other: u64, from: i128, to: i128, slack: i128) -> (r: Interval)
    requires
        1 <= other <= u32::MAX,
        0 <= from < to < 2 * matching::UNIT_LIMIT,
        0 <= slack < matching::UNIT_LIMIT,
    ensures
        r == clipped(matching::stretch_of(s@, other as int), from as int, to as int, slack as int),
        r.from >= from,
        r.to <= to,
{
    let a: matching::Stretch = matching::to_stretch(s, other);
    let lo: i128 = a.start - slack;
    let hi: i128 = a.start + a.length + slack;
    Interval {
        from: if lo > from {
            lo
        } else {
            from
        },
        to: if hi < to {
            hi
        } else {
            to
        },
    }
}

fn short_source_audio_covers_group(
    video: &Representation,
    members: &[usize],
    audio: &Representation,
    m: &[SegmentRef],
) -> (r: bool)
    requires
        members@.len() > 0,
        forall|j: int| 0 <= j < members@.len() ==> (#[trigger] members@[j]) < video.segments@.len(),
    ensures
        r == covers_group(video@, places(members@), audio@, parser::segment_views(m@)),
{
    let v: u64 = matching::to_rate(video.timescale);
    let a: u64 = matching::to_rate(audio.timescale);
    let k: usize = members.len();
    let ghost ps = places(members@);
    let ghost ms = parser::segment_views(m@);
    proof {
        assert(ps[0] == members@[0] as int);
        assert(ps.last() == members@[k - 1] as int);
        assert(video@.segments[ps[0]] == video.segments@[members@[0] as int]@);
        assert(video@.segments[ps.last()] == video.segments@[members@[k - 1] as int]@);
        assert(0 <= v * a <= 0xffff_ffff * 0xffff_ffff) by (nonlinear_arith)
            requires
                1 <= v <= 0xffff_ffff,
                1 <= a <= 0xffff_ffff,
        ;
    }
    let first: matching::Stretch = matching::to_stretch(&video.segments[members[0]], a);
    let last: matching::Stretch = matching::to_stretch(&video.segments[members[k - 1]], a);
    let from: i128 = first.start;
    let to: i128 = last.start + last.length;
    if to <= from {
        return false;
    }
    let slack: i128 = SHORT_GROUP_AUDIO_EDGE_SLACK_MS * (v as i128 * a as i128);
    let mut parts: Vec<Interval> = Vec::new();
    for i in 0..m.len()
        invariant
            ms == parser::segment_views(m@),
            1 <= v <= u32::MAX,
            0 <= from < to < 2 * matching::UNIT_LIMIT,
            0 <= slack < matching::UNIT_LIMIT,
            parts@ == covered_parts(ms, i as int, v as int, from as int, to as int, slack as int),
            coverage::all_wf(parts@),
    {
        assert(ms[i as int] == m@[i as int]@);
        if !is_seen(m, m[i].number, i) {
            let c: Interval = to_clipped(&m[i], v, from, to, slack);
            if c.to > c.from {
                parts.push(c);
            }
        }
    }
    let covered: i128 = coverage::merged_interval_duration(parts.as_slice());
    let den: i128 = MIN_MEDIA_COVERAGE_DEN as i128;
    let num: i128 = MIN_MEDIA_COVERAGE_NUM as i128;
    assert(den == 10 && num == 9);
    covered * den >= (to - from) * num
}

fn short_source_group_audio_matches(
    video: &Representation,
    members: &[usize],
    audio: &Representation,
) -> (r: Option<Vec<SegmentRef>>)
    requires
        members@.len() > 0,
        forall|j: int| 0 <= j < members@.len() ==> (#[trigger] members@[j]) < video.segments@.len(),
    ensures
        match r {
            Some(m) => group_audio(video@, places(members@), audio@) == Some(
                parser::segment_views(m@),
            ) && m@.len() == members@.len(),
            None => group_audio(video@, places(members@), audio@) is None,
        },
{
    let ghost ps = places(members@);
    let mut m: Vec<SegmentRef> = Vec::new();
    assert(parser::segment_views(m@) =~= Seq::<SegmentRefView>::empty());
    for i in 0..members.len()
        invariant
            ps == places(members@),
            forall|j: int|
                0 <= j < members@.len() ==> (#[trigger] members@[j]) < video.segments@.len(),
            m@.len() == i,
            audio_of_group(video@, ps, audio@, i as int) == Some(parser::segment_views(m@)),
    {
        assert(ps[i as int] == members@[i as int] as int);
        assert(video@.segments[ps[i as int]] == video.segments@[members@[i as int] as int]@);
        match match_audio_segment_for_video(video, &video.segments[members[i]], audio) {
            Some(s) => {
                let ghost before = m@;
                let d: SegmentRef = s.duplicate();
                m.push(d);
                assert(parser::segment_views(m@) =~= parser::segment_views(before).push(d@));
            },
            None => {
                proof {
                    lemma_no_audio(video@, ps, audio@, i as int + 1, ps.len() as int);
                }
                return None;
            },
        }
    }
    if short_source_audio_covers_group(video, members, audio, m.as_slice()) {
        Some(m)
    } else {
        None
    }
}

proof fn lemma_no_audio(
    video: RepresentationView,
    members: Seq<int>,
    audio: RepresentationView,
    i: int,
    n: int,
)
    requires
        0 <= i <= n,
        audio_of_group(video, members, audio, i) is None,
    ensures
        audio_of_group(video, members, audio, n) is None,
    decreases n - i,
{
    if i < n {
        lemma_no_audio(video, members, audio, i, n - 1);
    }
}

/// A segment to be fetched, with the audio and the subtitles that belong to it.
#[derive(Debug, Clone)]
pub struct SegmentJob {
    pub num: u64,
    pub vurl: String,
    pub aurl: Option<String>,
    pub surl: Option<String>,
    pub video_dur_ts: u64,
    pub audio_dur_ts: Option<u64>,
}

/// What a value of [`SegmentJob`] holds.
pub struct JobView {
    pub num: u64,
    pub vurl: Seq<char>,
    pub aurl: Option<Seq<char>>,
    pub surl: Option<Seq<char>>,
    pub video_dur_ts: u64,
    pub audio_dur_ts: Option<u64>,
}

impl View for SegmentJob {
    type V = JobView;

    open spec fn view(&self) -> JobView {
        JobView {
            num: self.num,
            vurl: self.vurl@,
            aurl: text::opt_text(self.aurl),
            surl: text::opt_text(self.surl),
            video_dur_ts: self.video_dur_ts,
            audio_dur_ts: self.audio_dur_ts,
        }
    }
}

/// What a list of jobs holds.
pub open spec fn job_views(v: Seq<SegmentJob>) -> Seq<JobView> {
    v.map_values(|j: SegmentJob| j@)
}

/// The subtitle segment that belongs to a video segment.
pub open spec fn subtitle_for(
    video: RepresentationView,
    seg: SegmentRefView,
    subtitle: Option<RepresentationView>,
) -> Option<SegmentRefView> {
    match subtitle {
        Some(r) => match matching::match_of(seg, video.timescale, r) {
            Some(i) => Some(r.segments[i]),
            None => None,
        },
        None => None,
    }
}

/// The job of a video segment with the audio that belongs to it.
pub open spec fn job_of(
    video: RepresentationView,
    seg: SegmentRefView,
    audio: Option<SegmentRefView>,
    subtitle: Option<RepresentationView>,
) -> JobView {
    JobView {
        num: seg.number,
        vurl: seg.url,
        aurl: match audio {
            Some(a) => Some(a.url),
            None => None,
        },
        surl: match subtitle_for(video, seg, subtitle) {
            Some(s) => Some(s.url),
            None => None,
        },
        video_dur_ts: seg.duration_ts,
        audio_dur_ts: match audio {
            Some(a) => Some(a.duration_ts),
            None => None,
        },
    }
}

/// What an optional track holds.
pub open spec fn opt_rep(r: Option<&Representation>) -> Option<RepresentationView> {
    match r {
        Some(x) => Some(x@),
        None => None,
    }
}

/// What an optional segment holds.
pub open spec fn opt_segment(s: Option<&SegmentRef>) -> Option<SegmentRefView> {
    match s {
        Some(x) => Some(x@),
        None => None,
    }
}

/// The job of a video segment with the audio that belongs to it.
pub fn make_job(
    video: &Representation,
    seg: &SegmentRef,
    audio: Option<&SegmentRef>,
    subtitle: Option<&Representation>,
) -> (r: SegmentJob)
    ensures
        r@ == job_of(video@, seg@, opt_segment(audio), opt_rep(subtitle)),
{
    let surl: Option<String> = match subtitle {
        Some(rep) => match matching::match_timed_segment_for_video(seg, video.timescale, rep) {
            Some(s) => Some(text::clone_text(s.url.as_str())),
            None => None,
        },
        None => None,
    };
    let aurl: Option<String> = match audio {
        Some(a) => Some(text::clone_text(a.url.as_str())),
        None => None,
    };
    let audio_dur_ts: Option<u64> = match audio {
        Some(a) => Some(a.duration_ts),
        None => None,
    };
    SegmentJob {
        num: seg.number,
        vurl: text::clone_text(seg.url.as_str()),
        aurl,
        surl,
        video_dur_ts: seg.duration_ts,
        audio_dur_ts,
    }
}

/// A group that waits for its audio.
#[derive(Debug, Clone, Copy, PartialEq, Eq, Structural)]
pub struct ShortSourceAudioBlock {
    /// Its first segment.
    pub seg: u64,
    /// Where to go on if the group is given up.
    pub skip_to: u64,
}

/// What to do with the groups of a short source.
#[derive(Debug)]
pub struct ShortSourceJobPlan {
    pub jobs: Vec<SegmentJob>,
    pub blocked_on_audio: Option<ShortSourceAudioBlock>,
    pub skipped_incomplete_head: bool,
}

/// What a value of [`ShortSourceJobPlan`] holds.
pub struct PlanView {
    pub jobs: Seq<JobView>,
    pub blocked: Option<ShortSourceAudioBlock>,
    pub skipped: bool,
}

impl View for ShortSourceJobPlan {
    type V = PlanView;

    open spec fn view(&self) -> PlanView {
        PlanView {
            jobs: job_views(self.jobs@),
            blocked: self.blocked_on_audio,
            skipped: self.skipped_incomplete_head,
        }
    }
}

/// A source whose groups are looked at.
pub struct GroupSource {
    pub video: RepresentationView,
    pub audio: Option<RepresentationView>,
    pub subtitle: Option<RepresentationView>,
    pub audio_required: bool,
    pub size: int,
}

impl GroupSource {
    /// The audio of a group: `None` where it is needed and not there, and no segment for each
    /// member where it is not needed.
    pub open spec fn audio_of(self, members: Seq<int>) -> Option<Seq<Option<SegmentRefView>>> {
        if !self.audio_required {
            Some(Seq::new(members.len(), |i: int| None::<SegmentRefView>))
        } else {
            match self.audio {
                Some(a) => match group_audio(self.video, members, a) {
                    Some(m) => Some(m.map_values(|s: SegmentRefView| Some(s))),
                    None => None,
                },
                None => None,
            }
        }
    }

    /// The jobs of the first `n` members of a group.
    pub open spec fn jobs_of(
        self,
        members: Seq<int>,
        audio: Seq<Option<SegmentRefView>>,
        n: int,
    ) -> Seq<JobView>
        decreases n,
    {
        if n <= 0 {
            Seq::empty()
        } else {
            self.jobs_of(members, audio, n - 1).push(
                job_of(
                    self.video,
                    self.video.segments[members[n - 1]],
                    audio[n - 1],
                    self.subtitle,
                ),
            )
        }
    }

    /// What waits where the last group has no audio yet.
    pub open spec fn block_of(self, members: Seq<int>) -> ShortSourceAudioBlock {
        let last = self.video.segments[members.last()].number;
        ShortSourceAudioBlock {
            seg: self.video.segments[members[0]].number,
            skip_to: if last == u64::MAX {
                last
            } else {
                (last + 1) as u64
            },
        }
    }

    /// What to do with the groups from `k` on: whole ones are fetched, others are passed over unless
    /// they are the last.
    pub open spec fn plan_from(self, groups: Seq<GroupView>, k: int, acc: PlanView) -> PlanView
        decreases groups.len() - k,
    {
        if k < 0 || k >= groups.len() {
            acc
        } else {
            let members = groups[k].members;
            let tail = k + 1 == groups.len();
            let passed = PlanView { skipped: true, ..acc };
            if members.len() != self.size {
                if tail {
                    acc
                } else {
                    self.plan_from(groups, k + 1, passed)
                }
            } else {
                match self.audio_of(members) {
                    Some(a) => self.plan_from(
                        groups,
                        k + 1,
                        PlanView {
                            jobs: acc.jobs + self.jobs_of(members, a, members.len() as int),
                            ..acc
                        },
                    ),
                    None => if tail {
                        PlanView { blocked: Some(self.block_of(members)), ..acc }
                    } else {
                        self.plan_from(groups, k + 1, passed)
                    },
                }
            }
        }
    }

    /// What to do with the segments from the number `next` on.
    pub open spec fn plan(self, next: u64) -> PlanView {
        let p = self.plan_from(
            groups_of(self.video, next, self.size, self.video.segments.len() as int),
            0,
            PlanView { jobs: Seq::empty(), blocked: None, skipped: false },
        );
        if p.jobs.len() > 0 {
            PlanView { blocked: None, ..p }
        } else {
            p
        }
    }
}

proof fn lemma_job_count(
    src: GroupSource,
    members: Seq<int>,
    audio: Seq<Option<SegmentRefView>>,
    n: int,
)
    requires
        0 <= n,
    ensures
        src.jobs_of(members, audio, n).len() == n,
    decreases n,
{
    if n > 0 {
        lemma_job_count(src, members, audio, n - 1);
    }
}

proof fn lemma_whole_groups(src: GroupSource, groups: Seq<GroupView>, k: int, acc: PlanView)
    requires
        src.size > 0,
        acc.jobs.len() as int % src.size == 0,
    ensures
        src.plan_from(groups, k, acc).jobs.len() as int % src.size == 0,
    decreases groups.len() - k,
{
    if 0 <= k < groups.len() {
        let members = groups[k].members;
        let passed = PlanView { skipped: true, ..acc };
        if members.len() != src.size {
            lemma_whole_groups(src, groups, k + 1, passed);
        } else {
            match src.audio_of(members) {
                Some(a) => {
                    let more = src.jobs_of(members, a, members.len() as int);
                    lemma_job_count(src, members, a, members.len() as int);
                    let next = PlanView { jobs: acc.jobs + more, ..acc };
                    let m = acc.jobs.len() as int;
                    let size = src.size;
                    assert((m + size) % size == 0) by (nonlinear_arith)
                        requires
                            size > 0,
                            m % size == 0,
                    ;
                    lemma_whole_groups(src, groups, k + 1, next);
                },
                None => {
                    lemma_whole_groups(src, groups, k + 1, passed);
                },
            }
        }
    }
}

/// Of a short source only whole groups are fetched, and it waits for audio only where there is
/// nothing to fetch.
pub proof fn law_only_whole_groups(src: GroupSource, next: u64)
    requires
        src.size > 0,
    ensures
        src.plan(next).jobs.len() as int % src.size == 0,
        src.plan(next).jobs.len() > 0 ==> src.plan(next).blocked is None,
{
    let groups = groups_of(src.video, next, src.size, src.video.segments.len() as int);
    let size = src.size;
    assert(0int % size == 0) by (nonlinear_arith)
        requires
            size > 0,
    ;
    lemma_whole_groups(
        src,
        groups,
        0,
        PlanView { jobs: Seq::empty(), blocked: None, skipped: false },
    );
}

proof fn lemma_audio_count(
    video: RepresentationView,
    members: Seq<int>,
    audio: RepresentationView,
    n: int,
)
    requires
        0 <= n,
        audio_of_group(video, members, audio, n) is Some,
    ensures
        audio_of_group(video, members, audio, n)->0.len() == n,
    decreases n,
{
    if n > 0 {
        lemma_audio_count(video, members, audio, n - 1);
    }
}

proof fn lemma_jobs_have_audio(
    src: GroupSource,
    members: Seq<int>,
    audio: Seq<Option<SegmentRefView>>,
    n: int,
    i: int,
)
    requires
        0 <= i < n <= audio.len(),
        forall|j: int| 0 <= j < audio.len() ==> (#[trigger] audio[j]) is Some,
    ensures
        src.jobs_of(members, audio, n).len() == n,
        src.jobs_of(members, audio, n)[i].aurl is Some,
    decreases n,
{
    lemma_job_count(src, members, audio, n);
    lemma_job_count(src, members, audio, n - 1);
    assert(audio[n - 1] is Some);
    if i < n - 1 {
        lemma_jobs_have_audio(src, members, audio, n - 1, i);
    }
}

proof fn lemma_groups_have_audio(src: GroupSource, groups: Seq<GroupView>, k: int, acc: PlanView)
    requires
        src.audio_required,
        forall|i: int| 0 <= i < acc.jobs.len() ==> (#[trigger] acc.jobs[i]).aurl is Some,
    ensures
        forall|i: int|
            0 <= i < src.plan_from(groups, k, acc).jobs.len() ==> (#[trigger] src.plan_from(
                groups,
                k,
                acc,
            ).jobs[i]).aurl is Some,
    decreases groups.len() - k,
{
    if 0 <= k < groups.len() {
        let members = groups[k].members;
        let passed = PlanView { skipped: true, ..acc };
        if members.len() != src.size {
            lemma_groups_have_audio(src, groups, k + 1, passed);
        } else {
            match src.audio_of(members) {
                Some(a) => {
                    let n = members.len() as int;
                    let more = src.jobs_of(members, a, n);
                    lemma_audio_count(src.video, members, src.audio->0, n);
                    assert(a.len() == n);
                    assert(forall|j: int| 0 <= j < a.len() ==> (#[trigger] a[j]) is Some);
                    lemma_job_count(src, members, a, n);
                    assert forall|i: int| 0 <= i < more.len() implies (
                    #[trigger] more[i]).aurl is Some by {
                        lemma_jobs_have_audio(src, members, a, n, i);
                    }
                    lemma_groups_have_audio(
                        src,
                        groups,
                        k + 1,
                        PlanView { jobs: acc.jobs + more, ..acc },
                    );
                },
                None => {
                    lemma_groups_have_audio(src, groups, k + 1, passed);
                },
            }
        }
    }
}

/// Where audio is required, no segment of a group is fetched without the audio that belongs to
/// it.
pub proof fn law_group_jobs_have_audio(src: GroupSource, next: u64, i: int)
    requires
        src.audio_required,
        0 <= i < src.plan(next).jobs.len(),
    ensures
        src.plan(next).jobs[i].aurl is Some,
{
    lemma_groups_have_audio(
        src,
        groups_of(src.video, next, src.size, src.video.segments.len() as int),
        0,
        PlanView { jobs: Seq::empty(), blocked: None, skipped: false },
    );
}

fn group_jobs(
    video: &Representation,
    members: &[usize],
    audio: &Option<Vec<SegmentRef>>,
    subtitle: Option<&Representation>,
    src: Ghost<GroupSource>,
    views: Ghost<Seq<Option<SegmentRefView>>>,
) -> (r: Vec<SegmentJob>)
    requires
        src@.video == video@,
        src@.subtitle == opt_rep(subtitle),
        forall|j: int| 0 <= j < members@.len() ==> (#[trigger] members@[j]) < video.segments@.len(),
        views@.len() == members@.len(),
        match audio {
            Some(m) => m@.len() == members@.len() && forall|j: int|
                0 <= j < members@.len() ==> #[trigger] views@[j] == Some(m@[j]@),
            None => forall|j: int| 0 <= j < members@.len() ==> #[trigger] views@[j] is None,
        },
    ensures
        job_views(r@) == src@.jobs_of(places(members@), views@, members@.len() as int),
{
    let ghost ps = places(members@);
    let mut out: Vec<SegmentJob> = Vec::new();
    assert(job_views(out@) =~= Seq::<JobView>::empty());
    for i in 0..members.len()
        invariant
            ps == places(members@),
            src@.video == video@,
            src@.subtitle == opt_rep(subtitle),
            forall|j: int|
                0 <= j < members@.len() ==> (#[trigger] members@[j]) < video.segments@.len(),
            views@.len() == members@.len(),
            match audio {
                Some(m) => m@.len() == members@.len() && forall|j: int|
                    0 <= j < members@.len() ==> #[trigger] views@[j] == Some(m@[j]@),
                None => forall|j: int| 0 <= j < members@.len() ==> #[trigger] views@[j] is None,
            },
            job_views(out@) == src@.jobs_of(ps, views@, i as int),
    {
        assert(ps[i as int] == members@[i as int] as int);
        assert(video@.segments[ps[i as int]] == video.segments@[members@[i as int] as int]@);
        let a: Option<&SegmentRef> = match audio {
            Some(m) => Some(&m[i]),
            None => None,
        };
        assert(views@[i as int] == opt_segment(a));
        let j: SegmentJob = make_job(video, &video.segments[members[i]], a, subtitle);
        let ghost before = out@;
        out.push(j);
        assert(job_views(out@) =~= job_views(before).push(j@));
    }
    out
}

/// What to do with the segments of a short source from the number `next_number` on.
pub fn build_short_source_live_jobs(
    video: &Representation,
    audio: Option<&Representation>,
    subtitle: Option<&Representation>,
    audio_required: bool,
    next_number: u64,
    group_size: usize,
) -> (r: ShortSourceJobPlan)
    requires
        group_size > 0,
    ensures
        r@ == (GroupSource {
            video: video@,
            audio: opt_rep(audio),
            subtitle: opt_rep(subtitle),
            audio_required,
            size: group_size as int,
        }).plan(next_number),
{
    let ghost src = GroupSource {
        video: video@,
        audio: opt_rep(audio),
        subtitle: opt_rep(subtitle),
        audio_required,
        size: group_size as int,
    };
    let groups: Vec<Group> = short_source_video_groups(video, next_number, group_size);
    let ghost gv = group_views(groups@);
    let mut plan = ShortSourceJobPlan {
        jobs: Vec::new(),
        blocked_on_audio: None,
        skipped_incomplete_head: false,
    };
    let n: usize = groups.len();
    let mut k: usize = 0;
    let ghost all = src.plan_from(gv, 0, plan@);
    assert(plan@.jobs =~= Seq::<JobView>::empty());
    let mut done: bool = false;
    while k < n && !done
        invariant
            n == groups@.len(),
            k <= n,
            gv == group_views(groups@),
            members_below(groups@, video.segments@.len() as int),
            src == (GroupSource {
                video: video@,
                audio: opt_rep(audio),
                subtitle: opt_rep(subtitle),
                audio_required,
                size: group_size as int,
            }),
            group_size > 0,
            !done ==> src.plan_from(gv, k as int, plan@) == all,
            done ==> plan@ == all,
        decreases n - k, !done as int,
    {
        let members: &Vec<usize> = &groups[k].members;
        let ghost ps = gv[k as int].members;
        assert(ps == places(members@));
        assert(groups@[k as int].members@.len() > 0);
        let tail: bool = k + 1 == n;
        if members.len() != group_size {
            if tail {
                done = true;
            } else {
                plan.skipped_incomplete_head = true;
                k = k + 1;
            }
        } else {
            let mut missing: bool = false;
            let matches: Option<Vec<SegmentRef>> = if audio_required {
                let found: Option<Vec<SegmentRef>> = match audio {
                    Some(a) => short_source_group_audio_matches(video, members.as_slice(), a),
                    None => None,
                };
                if found.is_none() {
                    missing = true;
                }
                found
            } else {
                None
            };
            if missing {
                assert(src.audio_of(ps) is None);
                if tail {
                    let last: u64 = video.segments[members[members.len() - 1]].number;
                    proof {
                        let m = members@;
                        assert(ps[0] == m[0] as int && ps.last() == m[m.len() - 1] as int);
                        assert(video@.segments[ps[0]] == video.segments@[m[0] as int]@);
                        assert(video@.segments[ps.last()] == video.segments@[m[m.len()
                            - 1] as int]@);
                    }
                    plan.blocked_on_audio = Some(
                        ShortSourceAudioBlock {
                            seg: video.segments[members[0]].number,
                            skip_to: if last == u64::MAX {
                                last
                            } else {
                                last + 1
                            },
                        },
                    );
                    done = true;
                } else {
                    plan.skipped_incomplete_head = true;
                    k = k + 1;
                }
            } else {
                let ghost views = src.audio_of(ps)->0;
                let mut more: Vec<SegmentJob> = group_jobs(
                    video,
                    members.as_slice(),
                    &matches,
                    subtitle,
                    Ghost(src),
                    Ghost(views),
                );
                let ghost before = plan.jobs@;
                let ghost added = more@;
                plan.jobs.append(&mut more);
                assert(job_views(plan.jobs@) =~= job_views(before) + job_views(added));
                k = k + 1;
            }
        }
    }
    if plan.jobs.len() > 0 {
        plan.blocked_on_audio = None;
    }
    assert(plan@.jobs.len() == plan.jobs@.len());
    plan
}

/// Whether groups come in the order of their identifiers, none of which comes twice.
pub open spec fn in_order(g: Seq<GroupView>) -> bool {
    forall|a: int, b: int| 0 <= a < b < g.len() ==> g[a].id < g[b].id
}

/// Whether the groups hold a place.
pub open spec fn grouped(g: Seq<GroupView>, place: int) -> bool {
    exists|k: int| 0 <= k < g.len() && (#[trigger] g[k]).members.contains(place)
}

proof fn lemma_slot(g: Seq<GroupView>, id: u64, i: int)
    requires
        0 <= i <= g.len(),
        forall|k: int| 0 <= k < i ==> (#[trigger] g[k]).id < id,
    ensures
        i <= group_slot(g, id, i) <= g.len(),
        forall|k: int| 0 <= k < group_slot(g, id, i) ==> (#[trigger] g[k]).id < id,
        group_slot(g, id, i) < g.len() ==> g[group_slot(g, id, i)].id >= id,
    decreases g.len() - i,
{
    if i < g.len() && g[i].id < id {
        lemma_slot(g, id, i + 1);
    }
}

proof fn lemma_with_member(g: Seq<GroupView>, id: u64, place: int)
    requires
        in_order(g),
    ensures
        in_order(with_member(g, id, place)),
        grouped(with_member(g, id, place), place),
        forall|x: int| grouped(g, x) ==> #[trigger] grouped(with_member(g, id, place), x),
        forall|k: int, x: int|
            0 <= k < with_member(g, id, place).len() && (
            #[trigger] with_member(g, id, place)[k].members.contains(x)) ==> x == place
                && with_member(g, id, place)[k].id == id || exists|j: int|
                0 <= j < g.len() && (#[trigger] g[j]).members.contains(x) && g[j].id == with_member(
                    g,
                    id,
                    place,
                )[k].id,
{
    lemma_slot(g, id, 0);
    let p = group_slot(g, id, 0);
    let w = with_member(g, id, place);
    if p < g.len() && g[p].id == id {
        let m = g[p].members;
        assert(m.push(place)[m.len() as int] == place);
        assert(w[p].members.contains(place));
        assert forall|x: int| grouped(g, x) implies #[trigger] grouped(w, x) by {
            let k = choose|k: int| 0 <= k < g.len() && (#[trigger] g[k]).members.contains(x);
            if k == p {
                let i = choose|i: int| 0 <= i < m.len() && m[i] == x;
                assert(m.push(place)[i] == x);
            }
            assert(w[k].members.contains(x));
        }
        assert forall|k: int, x: int|
            0 <= k < w.len() && (#[trigger] w[k].members.contains(x)) implies x == place && w[k].id
            == id || exists|j: int|
            0 <= j < g.len() && (#[trigger] g[j]).members.contains(x) && g[j].id == w[k].id by {
            if k == p && x != place {
                let i = choose|i: int| 0 <= i < m.push(place).len() && m.push(place)[i] == x;
                assert(m[i] == x);
                assert(g[p].members.contains(x));
            } else if k != p {
                assert(g[k].members.contains(x));
            }
        }
    } else {
        let one = GroupView { id, members: seq![place] };
        assert(w == g.insert(p, one));
        assert(w[p] == one);
        assert(one.members[0] == place);
        assert(w[p].members.contains(place));
        assert forall|a: int, b: int| 0 <= a < b < w.len() implies w[a].id < w[b].id by {
            if b == p {
                assert(w[a] == g[a]);
            } else if a == p {
                assert(w[b] == g[b - 1]);
                assert(g[p].id <= g[b - 1].id);
            } else {
                let i: int = if a < p {
                    a
                } else {
                    a - 1
                };
                let j: int = if b < p {
                    b
                } else {
                    b - 1
                };
                assert(w[a] == g[i] && w[b] == g[j]);
            }
        }
        assert forall|x: int| grouped(g, x) implies #[trigger] grouped(w, x) by {
            let k = choose|k: int| 0 <= k < g.len() && (#[trigger] g[k]).members.contains(x);
            let i: int = if k < p {
                k
            } else {
                k + 1
            };
            assert(w[i] == g[k]);
            assert(w[i].members.contains(x));
        }
        assert forall|k: int, x: int|
            0 <= k < w.len() && (#[trigger] w[k].members.contains(x)) implies x == place && w[k].id
            == id || exists|j: int|
            0 <= j < g.len() && (#[trigger] g[j]).members.contains(x) && g[j].id == w[k].id by {
            if k != p {
                let i: int = if k < p {
                    k
                } else {
                    k - 1
                };
                assert(w[k] == g[i]);
                assert(g[i].members.contains(x));
            } else {
                assert(one.members.len() == 1);
            }
        }
    }
}

/// The groups hold the segments from the next number on, each in the group it belongs to, and no
/// others; no group comes twice.
pub proof fn law_groups_hold_due_segments(
    rep: RepresentationView,
    next: u64,
    size: int,
    n: int,
)
    requires
        0 <= n <= rep.segments.len(),
    ensures
        ({
            let g = groups_of(rep, next, size, n);
            &&& in_order(g)
            &&& forall|i: int|
                0 <= i < n && rep.segments[i].number >= next ==> #[trigger] grouped(g, i)
            &&& forall|k: int, i: int|
                0 <= k < g.len() && (#[trigger] g[k].members.contains(i)) ==> 0 <= i < n
                    && rep.segments[i].number >= next && g[k].id == group_id_of(
                    rep,
                    i,
                    size,
                    nominal_of(rep.segments),
                ) as u64
        }),
    decreases n,
{
    if n > 0 {
        law_groups_hold_due_segments(rep, next, size, n - 1);
        let h = groups_of(rep, next, size, n - 1);
        let g = groups_of(rep, next, size, n);
        if rep.segments[n - 1].number >= next {
            let id = group_id_of(rep, n - 1, size, nominal_of(rep.segments)) as u64;
            lemma_with_member(h, id, n - 1);
            assert forall|k: int, i: int|
                0 <= k < g.len() && (#[trigger] g[k].members.contains(i)) implies 0 <= i < n
                && rep.segments[i].number >= next && g[k].id == group_id_of(
                rep,
                i,
                size,
                nominal_of(rep.segments),
            ) as u64 by {
                if !(i == n - 1 && g[k].id == id) {
                    let j = choose|j: int|
                        0 <= j < h.len() && (#[trigger] h[j]).members.contains(i) && h[j].id
                            == g[k].id;
                    assert(h[j].members.contains(i));
                }
            }
        }
    }
}

/// Where segments are numbered, a group takes as many numbers as it has members, counted from the
/// first; where they are timed, that many average durations.
pub proof fn law_groups_are_even(rep: RepresentationView, idx: int, size: int, nominal: int)
    requires
        0 <= idx < rep.segments.len(),
        size > 0,
        nominal > 0,
    ensures
        ({
            let id = group_id_of(rep, idx, size, nominal);
            let number = rep.segments[idx].number;
            &&& !matching::by_time(rep) && number - rep.start_number >= idx ==> id * size <= number
                - rep.start_number < (id + 1) * size
            &&& matching::by_time(rep) ==> id * (size * nominal) <= number < (id + 1) * (size
                * nominal)
        }),
{
    let id = group_id_of(rep, idx, size, nominal);
    let number = rep.segments[idx].number as int;
    if matching::by_time(rep) {
        let q = number / nominal;
        assert(id == q / size);
        assert(q * nominal <= number < (q + 1) * nominal) by (nonlinear_arith)
            requires
                q == number / nominal,
                nominal > 0,
        ;
        assert(id * size <= q < (id + 1) * size) by (nonlinear_arith)
            requires
                id == q / size,
                size > 0,
        ;
        assert(id * (size * nominal) <= q * nominal && (q + 1) * nominal <= (id + 1) * (size
            * nominal)) by (nonlinear_arith)
            requires
                id * size <= q < (id + 1) * size,
                nominal > 0,
        ;
    } else if number - rep.start_number >= idx {
        let q = number - rep.start_number;
        assert(id * size <= q < (id + 1) * size) by (nonlinear_arith)
            requires
                id == q / size,
                size > 0,
        ;
    }
}

proof fn lemma_job_at(
    src: GroupSource,
    members: Seq<int>,
    audio: Seq<Option<SegmentRefView>>,
    n: int,
    i: int,
)
    requires
        0 <= i < n,
    ensures
        src.jobs_of(members, audio, n).len() == n,
        src.jobs_of(members, audio, n)[i].num == src.video.segments[members[i]].number,
        src.jobs_of(members, audio, n)[i].vurl == src.video.segments[members[i]].url,
    decreases n,
{
    lemma_job_count(src, members, audio, n);
    lemma_job_count(src, members, audio, n - 1);
    if i < n - 1 {
        lemma_job_at(src, members, audio, n - 1, i);
    }
}

/// Whether a job is that of a segment from the number `next` on.
pub open spec fn is_due(job: JobView, video: RepresentationView, next: u64) -> bool {
    exists|i: int|
        0 <= i < video.segments.len() && job.num == (#[trigger] video.segments[i]).number && job.vurl
            == video.segments[i].url && job.num >= next
}

proof fn lemma_plan_is_due(
    src: GroupSource,
    groups: Seq<GroupView>,
    k: int,
    acc: PlanView,
    next: u64,
)
    requires
        forall|i: int| 0 <= i < acc.jobs.len() ==> is_due(#[trigger] acc.jobs[i], src.video, next),
        forall|j: int, i: int|
            0 <= j < groups.len() && (#[trigger] groups[j].members.contains(i)) ==> 0 <= i
                < src.video.segments.len() && src.video.segments[i].number >= next,
    ensures
        forall|i: int|
            0 <= i < src.plan_from(groups, k, acc).jobs.len() ==> is_due(
                #[trigger] src.plan_from(groups, k, acc).jobs[i],
                src.video,
                next,
            ),
    decreases groups.len() - k,
{
    if 0 <= k < groups.len() {
        let members = groups[k].members;
        let passed = PlanView { skipped: true, ..acc };
        if members.len() != src.size {
            lemma_plan_is_due(src, groups, k + 1, passed, next);
        } else {
            match src.audio_of(members) {
                Some(a) => {
                    let n = members.len() as int;
                    let more = src.jobs_of(members, a, n);
                    lemma_job_count(src, members, a, n);
                    assert forall|i: int| 0 <= i < more.len() implies is_due(
                        #[trigger] more[i],
                        src.video,
                        next,
                    ) by {
                        lemma_job_at(src, members, a, n, i);
                        assert(groups[k].members.contains(members[i]));
                        assert(src.video.segments[members[i]].number >= next);
                    }
                    lemma_plan_is_due(
                        src,
                        groups,
                        k + 1,
                        PlanView { jobs: acc.jobs + more, ..acc },
                        next,
                    );
                },
                None => {
                    lemma_plan_is_due(src, groups, k + 1, passed, next);
                },
            }
        }
    }
}

/// What is fetched of a short source is a segment of it from the next number on, from its address.
pub proof fn law_group_jobs_are_due(src: GroupSource, next: u64, i: int)
    requires
        0 <= i < src.plan(next).jobs.len(),
    ensures
        is_due(src.plan(next).jobs[i], src.video, next),
{
    let n = src.video.segments.len() as int;
    law_groups_hold_due_segments(src.video, next, src.size, n);
    lemma_plan_is_due(
        src,
        groups_of(src.video, next, src.size, n),
        0,
        PlanView { jobs: Seq::empty(), blocked: None, skipped: false },
        next,
    );
}

proof fn lemma_even_total(s: Seq<SegmentRefView>, d: u64, n: int)
    requires
        0 <= n <= s.len(),
        forall|i: int| 0 <= i < s.len() ==> (#[trigger] s[i]).duration_ts == d,
    ensures
        total_ticks(s, n) == n * d,
    decreases n,
{
    if n > 0 {
        lemma_even_total(s, d, n - 1);
        assert(s[n - 1].duration_ts == d);
        assert((n - 1) * d + d == n * d) by (nonlinear_arith);
    } else {
        assert(n * d == 0) by (nonlinear_arith)
            requires
                n == 0,
        ;
    }
}

proof fn lemma_even_short(s: Seq<SegmentRefView>, d: u64, rate: int, n: int)
    requires
        0 <= n <= s.len(),
        forall|i: int| 0 <= i < s.len() ==> (#[trigger] s[i]).duration_ts == d,
        d < 4 * rate,
    ensures
        short_count(s, rate, n) == n,
    decreases n,
{
    if n > 0 {
        lemma_even_short(s, d, rate, n - 1);
        assert(s[n - 1].duration_ts == d);
    }
}

/// Segments of one length below 4 seconds are put together to 8 seconds, as near as whole segments
/// come to that; longer ones are not put together.
pub proof fn law_groups_last_eight_seconds(rep: RepresentationView, d: u64)
    requires
        rep.segments.len() >= 2,
        rep.timescale > 0,
        d > 0,
        forall|i: int| 0 <= i < rep.segments.len() ==> (#[trigger] rep.segments[i]).duration_ts == d,
    ensures
        d >= 4 * rep.timescale ==> group_size_of(rep) is None,
        d < 4 * rep.timescale ==> group_size_of(rep) is Some && {
            let g = group_size_of(rep)->0;
            &&& g >= 2
            &&& g < usize::MAX ==> (2 * g - 1) * d <= 16 * rep.timescale < (2 * g + 1) * d
        },
{
    let s = rep.segments;
    let n = s.len() as int;
    let rate = rep.timescale as int;
    let x = d as int;
    lemma_even_total(s, d, n);
    let total = total_ticks(s, n);
    assert(s[0].duration_ts == d);
    if d >= 4 * rate {
        assert(n * x >= 4 * (rate * n)) by (nonlinear_arith)
            requires
                x >= 4 * rate,
                n >= 2,
        ;
    } else {
        lemma_even_short(s, d, rate, n);
        assert(n * x < 4 * (rate * n)) by (nonlinear_arith)
            requires
                x < 4 * rate,
                n >= 2,
        ;
        let up = 16 * (rate * n) + total;
        let g = up / (2 * total);
        assert(total > 0) by (nonlinear_arith)
            requires
                total == n * x,
                n >= 2,
                x > 0,
        ;
        assert(g * (2 * total) <= up < (g + 1) * (2 * total)) by (nonlinear_arith)
            requires
                g == up / (2 * total),
                total > 0,
        ;
        assert((2 * g - 1) * x <= 16 * rate < (2 * g + 1) * x) by (nonlinear_arith)
            requires
                g * (2 * total) <= up < (g + 1) * (2 * total),
                up == 16 * (rate * n) + total,
                total == n * x,
                n >= 2,
        ;
        assert(g >= 2) by (nonlinear_arith)
            requires
                16 * rate < (2 * g + 1) * x,
                0 < x < 4 * rate,
        ;
    }
}

} // verus!
