//! What the elements of a manifest come to.

use vstd::prelude::*;

use super::parser;
use super::parser::{
    Attrs, ManifestState, Place, RepresentationView, SegmentRefView, Source, Spread, TimelineEntry,
    TrackKind, TrackView,
};
use crate::text;
use crate::xml::{AttrView, EventView};

verus! {

/// The name of the element that an event opens.
pub open spec fn opened(e: EventView) -> Option<Seq<char>> {
    match e {
        EventView::Start { name, .. } => Some(text::lossy_text(name)),
        EventView::Empty { name, .. } => Some(text::lossy_text(name)),
        _ => None,
    }
}

/// The attributes of that element.
pub open spec fn attrs(e: EventView) -> Attrs {
    match e {
        EventView::Start { attrs, .. } => parser::attrs_of(attrs),
        EventView::Empty { attrs, .. } => parser::attrs_of(attrs),
        _ => Seq::empty(),
    }
}

/// Whether an event opens an element of a name.
pub open spec fn opens(e: EventView, name: Seq<char>) -> bool {
    opened(e) == Some(name)
}

/// Whether none of the events from `a` to before `b` opens an element of a name.
pub open spec fn lack(events: Seq<EventView>, a: int, b: int, name: Seq<char>) -> bool {
    forall|i: int| a <= i < b ==> !opens(#[trigger] events[i], name)
}

/// What has been read after `n` events.
pub open spec fn state(events: Seq<EventView>, n: int, place: Place) -> ManifestState {
    ManifestState::with_events(events, n, place)->Ok_0
}

/// Whether the first `n` events have no fault.
pub open spec fn is_read(events: Seq<EventView>, n: int, place: Place) -> bool {
    0 <= n <= events.len() && ManifestState::with_events(events, n, place) is Ok
}

/// The entry of a timeline that an `S` element states: no time of its own where it names none, and
/// no duration or repeats where it names none.
pub open spec fn entry_of(a: Attrs) -> TimelineEntry {
    let or_zero = |v: Option<int>|
        match v {
            Some(n) => n as u64,
            None => 0u64,
        };
    TimelineEntry {
        t: match parser::attr_number(a, "t"@, u64::MAX as int) {
            Some(n) => Some(n as u64),
            None => None,
        },
        d: or_zero(parser::attr_number(a, "d"@, u64::MAX as int)),
        r: or_zero(parser::attr_number(a, "r"@, u64::MAX as int)),
    }
}

/// The entries that the `S` elements from `a` to before `b` state.
pub open spec fn entries_between(events: Seq<EventView>, a: int, b: int) -> Seq<TimelineEntry>
    decreases b - a,
{
    if b <= a {
        Seq::empty()
    } else {
        let e = entries_between(events, a, b - 1);
        if opens(events[b - 1], "S"@) {
            e.push(entry_of(attrs(events[b - 1])))
        } else {
            e
        }
    }
}

/// How many segments entries stand for.
pub open spec fn segment_count(e: Seq<TimelineEntry>) -> int
    decreases e.len(),
{
    if e.len() == 0 {
        0
    } else {
        segment_count(e.drop_last()) + e.last().r + 1
    }
}

/// How long entries last.
pub open spec fn whole_duration(e: Seq<TimelineEntry>) -> int
    decreases e.len(),
{
    if e.len() == 0 {
        0
    } else {
        whole_duration(e.drop_last()) + (e.last().r + 1) * e.last().d
    }
}

proof fn lemma_names_differ()
    ensures
        "MPD"@.len() == 3,
        "Period"@.len() == 6,
        "BaseURL"@.len() == 7,
        "AdaptationSet"@.len() == 13,
        "ContentProtection"@.len() == 17,
        "SegmentTemplate"@.len() == 15,
        "S"@.len() == 1,
        "Representation"@.len() == 14,
{
    reveal_strlit("MPD");
    reveal_strlit("Period");
    reveal_strlit("BaseURL");
    reveal_strlit("AdaptationSet");
    reveal_strlit("ContentProtection");
    reveal_strlit("SegmentTemplate");
    reveal_strlit("S");
    reveal_strlit("Representation");
}

/// One event.
proof fn lemma_step(events: Seq<EventView>, n: int, place: Place)
    requires
        0 < n,
        is_read(events, n, place),
    ensures
        is_read(events, n - 1, place),
        ({
            let e = events[n - 1];
            let a = attrs(e);
            let s = state(events, n - 1, place);
            let t = state(events, n, place);
            let starts_set = opens(e, "AdaptationSet"@);
            &&& starts_set ==> {
                &&& t.timeline.len() == 0
                &&& t.template is None
                &&& t.timescale == 1
                &&& t.kids.len() == 0
                &&& t.reps == s.reps
                &&& t.lang == parser::attr_or_empty(a, "lang"@)
                &&& t.codecs == parser::attr_or_empty(a, "codecs"@)
                &&& t.kind == parser::kind_of(
                    parser::attr(a, "contentType"@),
                    parser::attr(a, "mimeType"@),
                    parser::attr(a, "codecs"@),
                )
            }
            &&& !starts_set ==> {
                &&& t.lang == s.lang
                &&& t.codecs == s.codecs
                &&& t.kind == s.kind
            }
            &&& opens(e, "S"@) ==> t.timeline == s.timeline.push(entry_of(a))
            &&& !starts_set && !opens(e, "S"@) ==> t.timeline == s.timeline
            &&& opens(e, "SegmentTemplate"@) ==> {
                &&& t.template is Some
                &&& t.template->0.init == parser::attr_or_empty(a, "initialization"@)
                &&& t.template->0.media == parser::attr_or_empty(a, "media"@)
                &&& t.template->0.start_number == match parser::attr_number(
                    a,
                    "startNumber"@,
                    u64::MAX as int,
                ) {
                    Some(v) => v as u64,
                    None => 1,
                }
                &&& t.timescale == match parser::attr_number(a, "timescale"@, u32::MAX as int) {
                    Some(v) => v as u32,
                    None => s.timescale,
                }
            }
            &&& !starts_set && !opens(e, "SegmentTemplate"@) ==> t.template == s.template
                && t.timescale == s.timescale
            &&& opens(e, "ContentProtection"@) && s.track is None ==> t.kids == parser::united(
                s.kids,
                parser::kids_of(a),
            )
            &&& !starts_set && !(opens(e, "ContentProtection"@) && s.track is None) ==> t.kids
                == s.kids
            &&& s.reps.is_prefix_of(t.reps)
            &&& s.reps.len() <= t.reps.len() <= s.reps.len() + 1
            &&& t.reps.len() > s.reps.len() ==> {
                &&& !starts_set
                &&& s.template is Some
                &&& t.reps.last().segments == Spread::with_entries(
                    s.template->0.start_number,
                    Source {
                        base: s.base(place),
                        origin: place.origin,
                        media: parser::filled(
                            s.template->0.media,
                            if opens(e, "Representation"@) {
                                s.track_view(a)
                            } else {
                                s.track->0
                            },
                        ),
                    },
                    s.timeline,
                    s.timeline.len() as int,
                ).segments
                &&& t.reps.last().timescale == s.timescale
                &&& t.reps.last().lang == s.lang
                &&& t.reps.last().start_number == s.template->0.start_number
            }
        }),
{
    lemma_names_differ();
    let e = events[n - 1];
    let s = state(events, n - 1, place);
    let t = state(events, n, place);
    assert(is_read(events, n - 1, place));
    assert(t == s.with_event(e, place));
    assert(s.reps.subrange(0, s.reps.len() as int) =~= s.reps);
    if t.reps != s.reps {
        assert(t.reps.subrange(0, s.reps.len() as int) =~= s.reps);
    }
}

/// A set starts anew: what it says of its tracks, its template, its timeline and its keys does not
/// depend on what came before it.
pub proof fn law_set_starts_anew(s: ManifestState, t: ManifestState, a: Attrs)
    ensures
        s.with_set(a).timeline == t.with_set(a).timeline,
        s.with_set(a).template == t.with_set(a).template,
        s.with_set(a).timescale == t.with_set(a).timescale,
        s.with_set(a).kids == t.with_set(a).kids,
        s.with_set(a).kind == t.with_set(a).kind,
        s.with_set(a).lang == t.with_set(a).lang,
        s.with_set(a).codecs == t.with_set(a).codecs,
        s.with_set(a).reps == s.reps,
        s.with_set(a).seen == s.seen,
        s.with_set(a).mpd_base == s.mpd_base,
        s.with_set(a).period_base == s.period_base,
{
}

/// What stands between the start of a set and some event in it.
proof fn lemma_inside_set(events: Seq<EventView>, m: int, n: int, place: Place)
    requires
        0 <= m < n,
        is_read(events, n, place),
        opens(events[m], "AdaptationSet"@),
        lack(events, m + 1, n, "AdaptationSet"@),
    ensures
        is_read(events, m + 1, place),
        ({
            let a = attrs(events[m]);
            let t = state(events, n, place);
            &&& t.timeline == entries_between(events, m + 1, n)
            &&& t.lang == parser::attr_or_empty(a, "lang"@)
            &&& t.codecs == parser::attr_or_empty(a, "codecs"@)
            &&& t.kind == parser::kind_of(
                parser::attr(a, "contentType"@),
                parser::attr(a, "mimeType"@),
                parser::attr(a, "codecs"@),
            )
        }),
    decreases n - m,
{
    lemma_step(events, n, place);
    if n > m + 1 {
        lemma_inside_set(events, m, n - 1, place);
    } else {
        assert(state(events, n, place).timeline =~= Seq::<TimelineEntry>::empty());
    }
}

proof fn lemma_run(s: Spread, src: Source, d: u64, n: nat)
    ensures
        ({
            let t = s.with_run(src, d, n);
            &&& t.segments.len() == s.segments.len() + n
            &&& forall|i: int| 0 <= i < s.segments.len() ==> #[trigger] t.segments[i] == s.segments[i]
            &&& forall|i: int|
                s.segments.len() <= i < t.segments.len() ==> (#[trigger] t.segments[i]).duration_ts
                    == d
            &&& s.total + n * d <= u64::MAX ==> t.total == s.total + n * d
            &&& s.number + n <= u64::MAX ==> t.number == s.number + n && (!src.by_time()
                ==> forall|i: int|
                s.segments.len() <= i < t.segments.len() ==> (#[trigger] t.segments[i]).number
                    == s.number + i - s.segments.len())
            &&& s.time + n * d <= u64::MAX ==> t.time == s.time + n * d
        }),
    decreases n,
{
    if n > 0 {
        let m = (n - 1) as nat;
        lemma_run(s, src, d, m);
        assert(n * d == m * d + d) by (nonlinear_arith)
            requires
                n == m + 1,
        ;
        assert(0 <= m * d) by (nonlinear_arith);
    } else {
        assert(n * d == 0) by (nonlinear_arith)
            requires
                n == 0,
        ;
    }
}

proof fn lemma_count_grows(e: Seq<TimelineEntry>, k: int)
    requires
        0 <= k <= e.len(),
    ensures
        0 <= segment_count(e.take(k)) <= segment_count(e),
        0 <= whole_duration(e.take(k)) <= whole_duration(e),
        k < e.len() ==> segment_count(e.take(k + 1)) == segment_count(e.take(k)) + e[k].r + 1,
    decreases e.len(),
{
    if k < e.len() {
        assert(e.take(k + 1).drop_last() =~= e.take(k));
        assert(e.take(k + 1).last() == e[k]);
        lemma_count_grows(e.drop_last(), k);
        assert(e.drop_last().take(k) =~= e.take(k));
        assert(0 <= (e.last().r + 1) * e.last().d) by (nonlinear_arith);
    } else if e.len() > 0 {
        lemma_count_grows(e.drop_last(), e.len() - 1);
        assert(e.drop_last().take(e.len() - 1) =~= e.drop_last());
        assert(e.take(k) =~= e);
        assert(0 <= (e.last().r + 1) * e.last().d) by (nonlinear_arith);
    } else {
        assert(e.take(k) =~= e);
    }
}

/// An entry with `r` repeats is `r + 1` segments of its duration, behind those of the entries
/// before it. They are numbered one after the other from the first number on, where the template
/// does not go by time.
pub proof fn law_entries_become_segments(
    number: u64,
    src: Source,
    e: Seq<TimelineEntry>,
    k: int,
    i: int,
)
    requires
        0 <= k < e.len(),
        0 <= i <= e[k].r,
    ensures
        ({
            let s = Spread::with_entries(number, src, e, e.len() as int);
            let at = segment_count(e.take(k)) + i;
            &&& s.segments.len() == segment_count(e)
            &&& 0 <= at < segment_count(e)
            &&& s.segments[at].duration_ts == e[k].d
            &&& !src.by_time() && number + segment_count(e) <= u64::MAX ==> s.segments[at].number
                == number + at
            &&& whole_duration(e) <= u64::MAX ==> s.total == whole_duration(e)
        }),
{
    lemma_spread(number, src, e, e.len() as int);
    lemma_count_grows(e, k);
    lemma_count_grows(e, k + 1);
    assert(e.take(e.len() as int) =~= e);
    lemma_spread_entry(number, src, e, e.len() as int, k, i);
}

proof fn lemma_spread(number: u64, src: Source, e: Seq<TimelineEntry>, n: int)
    requires
        0 <= n <= e.len(),
    ensures
        ({
            let s = Spread::with_entries(number, src, e, n);
            &&& s.segments.len() == segment_count(e.take(n))
            &&& whole_duration(e.take(n)) <= u64::MAX ==> s.total == whole_duration(e.take(n))
            &&& number + segment_count(e.take(n)) <= u64::MAX ==> s.number == number
                + segment_count(e.take(n)) && (!src.by_time() ==> forall|i: int|
                0 <= i < s.segments.len() ==> (#[trigger] s.segments[i]).number == number + i)
        }),
    decreases n,
{
    if n > 0 {
        lemma_spread(number, src, e, n - 1);
        let p = Spread::with_entries(number, src, e, n - 1);
        let x = e[n - 1];
        let q = match x.t {
            Some(t) => Spread { time: t, ..p },
            None => p,
        };
        lemma_run(q, src, x.d, (x.r + 1) as nat);
        assert(e.take(n).drop_last() =~= e.take(n - 1));
        assert(e.take(n).last() == x);
        lemma_count_grows(e.take(n), n - 1);
        assert(e.take(n).take(n - 1) =~= e.take(n - 1));
        let s = Spread::with_entries(number, src, e, n);
        assert(s == q.with_run(src, x.d, (x.r + 1) as nat));
        if number + segment_count(e.take(n)) <= u64::MAX && !src.by_time() {
            assert forall|i: int| 0 <= i < s.segments.len() implies (#[trigger] s.segments[i]).number
                == number + i by {
                if i < p.segments.len() {
                    assert(s.segments[i] == p.segments[i]);
                }
            }
        }
    } else {
        assert(e.take(0) =~= Seq::<TimelineEntry>::empty());
    }
}

proof fn lemma_spread_entry(
    number: u64,
    src: Source,
    e: Seq<TimelineEntry>,
    n: int,
    k: int,
    i: int,
)
    requires
        0 <= k < n <= e.len(),
        0 <= i <= e[k].r,
    ensures
        ({
            let s = Spread::with_entries(number, src, e, n);
            let at = segment_count(e.take(k)) + i;
            &&& 0 <= at < s.segments.len()
            &&& s.segments[at].duration_ts == e[k].d
            &&& src.by_time() && e[k].t is Some && e[k].t->0 + i * e[k].d <= u64::MAX
                ==> s.segments[at].number == e[k].t->0 + i * e[k].d
        }),
    decreases n,
{
    let p = Spread::with_entries(number, src, e, n - 1);
    let x = e[n - 1];
    let q = match x.t {
        Some(t) => Spread { time: t, ..p },
        None => p,
    };
    lemma_spread(number, src, e, n - 1);
    lemma_run(q, src, x.d, (x.r + 1) as nat);
    lemma_count_grows(e, k);
    if k < n - 1 {
        lemma_spread_entry(number, src, e, n - 1, k, i);
        let at = segment_count(e.take(k)) + i;
        assert(Spread::with_entries(number, src, e, n).segments[at] == p.segments[at]);
    } else if src.by_time() && x.t is Some && x.t->0 + i * x.d <= u64::MAX {
        lemma_run_time(q, src, x.d, (x.r + 1) as nat, i);
    }
}

proof fn lemma_run_time(s: Spread, src: Source, d: u64, n: nat, i: int)
    requires
        src.by_time(),
        0 <= i < n,
        s.time + i * d <= u64::MAX,
    ensures
        s.with_run(src, d, n).segments[s.segments.len() + i].number == s.time + i * d,
    decreases n,
{
    let m = (n - 1) as nat;
    lemma_run(s, src, d, m);
    if i < m {
        lemma_run_time(s, src, d, m, i);
    }
}

/// Where the template goes by time, a segment is known by its start: the time that its entry
/// states, and a duration more for each segment of the entry before it.
pub proof fn law_times_follow_entries(
    number: u64,
    src: Source,
    e: Seq<TimelineEntry>,
    k: int,
    i: int,
)
    requires
        0 <= k < e.len(),
        0 <= i <= e[k].r,
        src.by_time(),
        e[k].t is Some,
        e[k].t->0 + i * e[k].d <= u64::MAX,
    ensures
        Spread::with_entries(number, src, e, e.len() as int).segments[segment_count(e.take(k))
            + i].number == e[k].t->0 + i * e[k].d,
{
    lemma_spread_entry(number, src, e, e.len() as int, k, i);
}

/// An entry that states no time goes on where the entry before it ends.
pub proof fn law_times_go_on(
    number: u64,
    src: Source,
    e: Seq<TimelineEntry>,
    k: int,
)
    requires
        0 < k < e.len(),
        src.by_time(),
        e[k].t is None,
        e[k - 1].t is Some,
        e[k - 1].t->0 + (e[k - 1].r + 1) * e[k - 1].d <= u64::MAX,
    ensures
        Spread::with_entries(number, src, e, e.len() as int).segments[segment_count(
            e.take(k),
        )].number == e[k - 1].t->0 + (e[k - 1].r + 1) * e[k - 1].d,
{
    lemma_time_behind(number, src, e, k);
    lemma_first_of_entry(number, src, e, e.len() as int, k);
}

proof fn lemma_time_behind(number: u64, src: Source, e: Seq<TimelineEntry>, k: int)
    requires
        0 < k <= e.len(),
        e[k - 1].t is Some,
        e[k - 1].t->0 + (e[k - 1].r + 1) * e[k - 1].d <= u64::MAX,
    ensures
        Spread::with_entries(number, src, e, k).time == e[k - 1].t->0 + (e[k - 1].r + 1) * e[k
            - 1].d,
{
    let x = e[k - 1];
    let p = Spread::with_entries(number, src, e, k - 1);
    let q = Spread { time: x.t->0, ..p };
    lemma_run(q, src, x.d, (x.r + 1) as nat);
}

proof fn lemma_first_of_entry(
    number: u64,
    src: Source,
    e: Seq<TimelineEntry>,
    n: int,
    k: int,
)
    requires
        0 <= k < n <= e.len(),
        src.by_time(),
        e[k].t is None,
    ensures
        ({
            let s = Spread::with_entries(number, src, e, n);
            let at = segment_count(e.take(k));
            &&& 0 <= at < s.segments.len()
            &&& s.segments[at].number == Spread::with_entries(number, src, e, k).time
        }),
    decreases n,
{
    let p = Spread::with_entries(number, src, e, n - 1);
    let x = e[n - 1];
    let q = match x.t {
        Some(t) => Spread { time: t, ..p },
        None => p,
    };
    lemma_spread(number, src, e, n - 1);
    lemma_run(q, src, x.d, (x.r + 1) as nat);
    lemma_count_grows(e, k);
    if k < n - 1 {
        lemma_first_of_entry(number, src, e, n - 1, k);
        let at = segment_count(e.take(k));
        assert(Spread::with_entries(number, src, e, n).segments[at] == p.segments[at]);
    } else {
        assert(0 * x.d == 0) by (nonlinear_arith);
        lemma_run_time(q, src, x.d, (x.r + 1) as nat, 0);
    }
}

/// A track has the segments that the timeline of its own set states up to its end, whatever sets
/// came before: one for each entry and one more for each repeat.
pub proof fn law_track_has_segments_of_its_set(
    events: Seq<EventView>,
    m: int,
    n: int,
    place: Place,
)
    requires
        0 <= m < n,
        is_read(events, n + 1, place),
        opens(events[m], "AdaptationSet"@),
        lack(events, m + 1, n, "AdaptationSet"@),
        state(events, n, place).reps.len() < state(events, n + 1, place).reps.len(),
    ensures
        ({
            let e = entries_between(events, m + 1, n);
            let track = state(events, n + 1, place).reps.last();
            &&& track.segments.len() == segment_count(e)
            &&& forall|k: int, i: int|
                #![trigger e[k], track.segments[segment_count(e.take(k)) + i]]
                0 <= k < e.len() && 0 <= i <= e[k].r ==> track.segments[segment_count(e.take(k))
                    + i].duration_ts == e[k].d
            &&& track.lang == parser::attr_or_empty(attrs(events[m]), "lang"@)
        }),
{
    lemma_step(events, n + 1, place);
    lemma_inside_set(events, m, n, place);
    let e = entries_between(events, m + 1, n);
    let s = state(events, n, place);
    let last = events[n];
    let src = Source {
        base: s.base(place),
        origin: place.origin,
        media: parser::filled(
            s.template->0.media,
            if opens(last, "Representation"@) {
                s.track_view(attrs(last))
            } else {
                s.track->0
            },
        ),
    };
    lemma_spread(s.template->0.start_number, src, e, e.len() as int);
    assert(e.take(e.len() as int) =~= e);
    let track = state(events, n + 1, place).reps.last();
    assert forall|k: int, i: int|
        #![trigger e[k], track.segments[segment_count(e.take(k)) + i]]
        0 <= k < e.len() && 0 <= i <= e[k].r implies track.segments[segment_count(e.take(k))
        + i].duration_ts == e[k].d by {
        lemma_spread_entry(s.template->0.start_number, src, e, e.len() as int, k, i);
    }
}

/// A track is cut by the last template of its own set: from its first number on, in its ticks.
pub proof fn law_track_goes_by_template_of_its_set(
    events: Seq<EventView>,
    m: int,
    k: int,
    n: int,
    place: Place,
)
    requires
        0 <= m < k < n,
        is_read(events, n + 1, place),
        opens(events[m], "AdaptationSet"@),
        lack(events, m + 1, n, "AdaptationSet"@),
        opens(events[k], "SegmentTemplate"@),
        lack(events, k + 1, n, "SegmentTemplate"@),
        state(events, n, place).reps.len() < state(events, n + 1, place).reps.len(),
    ensures
        ({
            let a = attrs(events[k]);
            let track = state(events, n + 1, place).reps.last();
            &&& match parser::attr_number(a, "startNumber"@, u64::MAX as int) {
                Some(v) => track.start_number == v,
                None => track.start_number == 1,
            }
            &&& match parser::attr_number(a, "timescale"@, u32::MAX as int) {
                Some(v) => track.timescale == v,
                None => lack(events, m + 1, k, "SegmentTemplate"@) ==> track.timescale == 1,
            }
        }),
{
    lemma_pushed(events, n, place);
    lemma_template_stays(events, k + 1, n, place);
    lemma_template_at(events, k, place);
    if lack(events, m + 1, k, "SegmentTemplate"@) {
        lemma_template_stays(events, m + 1, k, place);
        lemma_set_at(events, m, place);
    }
}

proof fn lemma_pushed(events: Seq<EventView>, n: int, place: Place)
    requires
        0 <= n,
        is_read(events, n + 1, place),
        state(events, n, place).reps.len() < state(events, n + 1, place).reps.len(),
    ensures
        is_read(events, n, place),
        state(events, n, place).template is Some,
        state(events, n + 1, place).reps.last().timescale == state(events, n, place).timescale,
        state(events, n + 1, place).reps.last().start_number == state(
            events,
            n,
            place,
        ).template->0.start_number,
{
    lemma_step(events, n + 1, place);
}

proof fn lemma_template_at(events: Seq<EventView>, k: int, place: Place)
    requires
        0 <= k,
        is_read(events, k + 1, place),
        opens(events[k], "SegmentTemplate"@),
    ensures
        is_read(events, k, place),
        state(events, k + 1, place).template is Some,
        match parser::attr_number(attrs(events[k]), "startNumber"@, u64::MAX as int) {
            Some(v) => state(events, k + 1, place).template->0.start_number == v,
            None => state(events, k + 1, place).template->0.start_number == 1,
        },
        match parser::attr_number(attrs(events[k]), "timescale"@, u32::MAX as int) {
            Some(v) => state(events, k + 1, place).timescale == v,
            None => state(events, k + 1, place).timescale == state(events, k, place).timescale,
        },
{
    lemma_step(events, k + 1, place);
    lemma_number_fits(attrs(events[k]), "startNumber"@, u64::MAX as int);
    lemma_number_fits(attrs(events[k]), "timescale"@, u32::MAX as int);
}

proof fn lemma_number_fits(a: Attrs, name: Seq<char>, max: int)
    ensures
        parser::attr_number(a, name, max) matches Some(v) ==> 0 <= v <= max,
{
    if let Some(v) = parser::attr(a, name) {
        if text::is_digits(text::unsigned_part(v)) {
            text::lemma_digits_value_nonneg(text::unsigned_part(v));
        }
    }
}

proof fn lemma_set_at(events: Seq<EventView>, m: int, place: Place)
    requires
        0 <= m,
        is_read(events, m + 1, place),
        opens(events[m], "AdaptationSet"@),
    ensures
        is_read(events, m, place),
        state(events, m + 1, place).timescale == 1,
        state(events, m + 1, place).template is None,
        state(events, m + 1, place).reps == state(events, m, place).reps,
{
    lemma_step(events, m + 1, place);
}

proof fn lemma_template_stays(events: Seq<EventView>, m: int, n: int, place: Place)
    requires
        0 <= m <= n,
        is_read(events, n, place),
        lack(events, m, n, "AdaptationSet"@),
        lack(events, m, n, "SegmentTemplate"@),
    ensures
        is_read(events, m, place),
        state(events, n, place).template == state(events, m, place).template,
        state(events, n, place).timescale == state(events, m, place).timescale,
    decreases n - m,
{
    if m < n {
        lemma_step(events, n, place);
        lemma_template_stays(events, m, n - 1, place);
    }
}

/// A set without a template has no tracks.
pub proof fn law_no_template_no_track(events: Seq<EventView>, m: int, n: int, place: Place)
    requires
        0 <= m < n,
        is_read(events, n, place),
        opens(events[m], "AdaptationSet"@),
        lack(events, m + 1, n, "AdaptationSet"@),
        lack(events, m + 1, n, "SegmentTemplate"@),
    ensures
        state(events, n, place).reps == state(events, m, place).reps,
    decreases n - m,
{
    lemma_step(events, n, place);
    if n > m + 1 {
        law_no_template_no_track(events, m, n - 1, place);
        lemma_template_stays(events, m + 1, n - 1, place);
        lemma_step(events, m + 1, place);
        let (a, b) = (state(events, n - 1, place).reps, state(events, n, place).reps);
        assert(b.subrange(0, a.len() as int) =~= b);
    }
}

/// The value of the last well-formed attribute of a name.
pub open spec fn last_stated(raw: Seq<Option<AttrView>>, name: Seq<char>) -> Option<Seq<char>>
    decreases raw.len(),
{
    if raw.len() == 0 {
        None
    } else if raw.last() is Some && text::lossy_text(raw.last()->0.key) == name {
        Some(text::lossy_text(raw.last()->0.value))
    } else {
        last_stated(raw.drop_last(), name)
    }
}

proof fn lemma_place(a: Attrs, name: Seq<char>, i: int)
    requires
        0 <= i,
    ensures
        match parser::place_of(a, name, i) {
            Some(j) => i <= j < a.len() && a[j].0 == name && forall|k: int|
                i <= k < j ==> (#[trigger] a[k]).0 != name,
            None => forall|k: int| i <= k < a.len() ==> (#[trigger] a[k]).0 != name,
        },
    decreases a.len() - i,
{
    if i < a.len() && a[i].0 != name {
        lemma_place(a, name, i + 1);
    }
}

proof fn lemma_with_attr(a: Attrs, key: Seq<char>, value: Seq<char>, name: Seq<char>)
    ensures
        parser::attr(parser::with_attr(a, key, value), name) == if key == name {
            Some(value)
        } else {
            parser::attr(a, name)
        },
{
    let b = parser::with_attr(a, key, value);
    lemma_place(a, key, 0);
    lemma_place(a, name, 0);
    lemma_place(b, name, 0);
    match parser::place_of(a, key, 0) {
        Some(j) => {
            assert forall|k: int| 0 <= k < a.len() implies (#[trigger] b[k]).0 == a[k].0 by {}
            if key != name {
                match (parser::place_of(a, name, 0), parser::place_of(b, name, 0)) {
                    (Some(x), Some(y)) => {
                        assert(b[x].0 == name);
                        assert(a[y].0 == name);
                        assert(x == y);
                    },
                    (Some(x), None) => {
                        assert(b[x].0 == name);
                    },
                    (None, Some(y)) => {
                        assert(a[y].0 == name);
                    },
                    (None, None) => {},
                }
            } else {
                assert(b[j].0 == name);
                match parser::place_of(b, name, 0) {
                    Some(y) => {
                        assert(a[y].0 == name);
                        assert(y == j);
                    },
                    None => {},
                }
            }
        },
        None => {
            assert forall|k: int| 0 <= k < a.len() implies #[trigger] b[k] == a[k] by {}
            assert(b[a.len() as int] == (key, value));
            match (parser::place_of(a, name, 0), parser::place_of(b, name, 0)) {
                (Some(x), Some(y)) => {
                    assert(b[x].0 == name);
                    if y < a.len() {
                        assert(a[y].0 == name);
                    }
                    assert(x == y);
                },
                (Some(x), None) => {
                    assert(b[x].0 == name);
                },
                (None, Some(y)) => {
                    if y < a.len() {
                        assert(a[y].0 == name);
                    }
                },
                (None, None) => {},
            }
        },
    }
}

/// Of an attribute that is stated more than once the last value holds; one that is not well formed
/// counts for nothing.
pub proof fn law_last_attribute_holds(raw: Seq<Option<AttrView>>, name: Seq<char>)
    ensures
        parser::attr(parser::attrs_of(raw), name) == last_stated(raw, name),
    decreases raw.len(),
{
    if raw.len() > 0 {
        law_last_attribute_holds(raw.drop_last(), name);
        if let Some(x) = raw.last() {
            lemma_with_attr(
                parser::attrs_of(raw.drop_last()),
                text::lossy_text(x.key),
                text::lossy_text(x.value),
                name,
            );
        }
    }
}

/// Whether a text can stand beside the marks of a template.
pub open spec fn is_plain(s: Seq<char>) -> bool {
    !s.contains('$')
}

proof fn lemma_plain_sum(a: Seq<char>, b: Seq<char>)
    requires
        is_plain(a),
        is_plain(b),
    ensures
        is_plain(a + b),
{
    if (a + b).contains('$') {
        let j = choose|j: int| 0 <= j < (a + b).len() && (a + b)[j] == '$';
        if j < a.len() {
            assert(a[j] == '$');
        } else {
            assert(b[j - a.len()] == '$');
        }
    }
}

proof fn lemma_plain_number(n: int)
    requires
        0 <= n,
    ensures
        is_plain(text::decimal(n)),
{
    text::law_decimal_round_trip(n);
    let s = text::decimal(n);
    if s.contains('$') {
        let j = choose|j: int| 0 <= j < s.len() && s[j] == '$';
        assert('0' <= s[j]);
    }
}

proof fn lemma_marks()
    ensures
        "$Number$"@.len() == 8 && "$Number$"@[0] == '$' && "$Number$"@[1] == 'N',
        "$Time$"@.len() == 6 && "$Time$"@[0] == '$' && "$Time$"@[1] == 'T' && "$Time$"@[5] == '$',
        "$RepresentationID$"@.len() == 18 && "$RepresentationID$"@[0] == '$',
        "$Bandwidth$"@.len() == 11 && "$Bandwidth$"@[0] == '$',
{
    reveal_strlit("$Number$");
    reveal_strlit("$Time$");
    reveal_strlit("$RepresentationID$");
    reveal_strlit("$Bandwidth$");
}

/// A template with a place for the number gives each segment the address with its number there;
/// the segment is known by that number.
pub proof fn law_number_stands_in_address(
    src: Source,
    a: Seq<char>,
    b: Seq<char>,
    number: u64,
    time: u64,
    d: u64,
)
    requires
        src.media == a + "$Number$"@ + b,
        is_plain(a),
        is_plain(b),
    ensures
        src.segment(number, time, d) == (SegmentRefView {
            number,
            url: parser::url_of(src.base, src.origin, a + text::decimal(number as int) + b),
            duration_ts: d,
        }),
        !src.by_time(),
{
    lemma_marks();
    let w = text::decimal(number as int);
    text::lemma_mark_is_replaced(a, "$Number$"@, b, w);
    lemma_plain_number(number as int);
    lemma_plain_sum(a, w);
    lemma_plain_sum(a + w, b);
    text::lemma_nothing_is_replaced(a + w + b, "$Time$"@, text::decimal(time as int));
    lemma_found(a, "$Number$"@, b);
}

proof fn lemma_found(a: Seq<char>, p: Seq<char>, b: Seq<char>)
    ensures
        text::contains(a + p + b, p),
{
    let s = a + p + b;
    assert(s.subrange(a.len() as int, a.len() as int + p.len()) =~= p);
    lemma_found_from(s, p, 0, a.len() as int);
}

proof fn lemma_found_from(s: Seq<char>, p: Seq<char>, i: int, j: int)
    requires
        0 <= i <= j,
        j + p.len() <= s.len(),
        s.subrange(j, j + p.len()) == p,
    ensures
        text::find_at(s, p, i) is Some,
    decreases j - i,
{
    if i < j && s.subrange(i, i + p.len()) != p {
        lemma_found_from(s, p, i + 1, j);
    }
}

/// A template with a place for the time, and none for the number, gives each segment the address
/// with its start there; the segment is known by that start.
pub proof fn law_time_stands_in_address(
    src: Source,
    a: Seq<char>,
    b: Seq<char>,
    number: u64,
    time: u64,
    d: u64,
)
    requires
        src.media == a + "$Time$"@ + b,
        is_plain(a),
        is_plain(b),
    ensures
        src.segment(number, time, d) == (SegmentRefView {
            number: time,
            url: parser::url_of(src.base, src.origin, a + text::decimal(time as int) + b),
            duration_ts: d,
        }),
        src.by_time(),
{
    lemma_marks();
    reveal_strlit("$Time$");
    reveal_strlit("$Number$");
    let p = "$Number$"@;
    let m = "$Time$"@;
    let s = src.media;
    assert forall|j: int| 0 <= j && j + p.len() <= s.len() implies #[trigger] s.subrange(
        j,
        j + p.len(),
    ) != p by {
        let x = s.subrange(j, j + p.len());
        assert(x[0] == s[j] && x[1] == s[j + 1]);
        if j < a.len() {
            assert(s[j] == a[j]);
            assert(a[j] != '$');
        } else if j < a.len() + 6 {
            assert(s[j] == m[j - a.len()]);
            if j == a.len() {
                assert(s[j + 1] == m[1]);
            } else if j == a.len() + 5 {
                assert(s[j + 1] == b[0]);
                assert(x[7] == s[j + 7]);
                assert(s[j + 7] == b[6]);
                assert(b[6] != '$');
                assert(p[7] == '$');
            } else {
                assert(m[j - a.len()] != '$');
            }
        } else {
            assert(s[j] == b[j - a.len() - 6]);
            assert(b[j - a.len() - 6] != '$');
        }
    }
    text::lemma_not_found(s, p, 0);
    lemma_unfound_stays(s, p, text::decimal(number as int), 0);
    assert(s.skip(0) =~= s);
    text::lemma_mark_is_replaced(a, m, b, text::decimal(time as int));
    lemma_found(a, m, b);
}

proof fn lemma_unfound_stays(s: Seq<char>, p: Seq<char>, w: Seq<char>, i: int)
    requires
        0 <= i <= s.len(),
        p.len() > 0,
        forall|j: int| 0 <= j && j + p.len() <= s.len() ==> #[trigger] s.subrange(j, j + p.len()) != p,
    ensures
        text::replaced_from(s, p, w, i) == s.skip(i),
    decreases s.len() - i,
{
    if i < s.len() {
        lemma_unfound_stays(s, p, w, i + 1);
        if p.is_prefix_of(s.skip(i)) {
            assert(s.subrange(i, i + p.len()) =~= s.skip(i).subrange(0, p.len() as int));
        }
        assert(seq![s[i]] + s.skip(i + 1) =~= s.skip(i));
    } else {
        assert(s.skip(i) =~= Seq::<char>::empty());
    }
}

/// A template with a place for the name of the track holds the name there.
pub proof fn law_name_stands_in_template(t: TrackView, a: Seq<char>, b: Seq<char>)
    requires
        is_plain(a),
        is_plain(b),
        is_plain(t.id),
    ensures
        parser::filled(a + "$RepresentationID$"@ + b, t) == a + t.id + b,
        parser::filled(a, t) == a,
{
    lemma_marks();
    text::lemma_mark_is_replaced(a, "$RepresentationID$"@, b, t.id);
    lemma_plain_sum(a, t.id);
    lemma_plain_sum(a + t.id, b);
    text::lemma_nothing_is_replaced(
        a + t.id + b,
        "$Bandwidth$"@,
        text::decimal(t.bandwidth as int),
    );
    text::lemma_nothing_is_replaced(a, "$RepresentationID$"@, t.id);
    text::lemma_nothing_is_replaced(a, "$Bandwidth$"@, text::decimal(t.bandwidth as int));
}

/// A track with a name of its own, of a known kind and with a template, is taken up with what its
/// element states. Its keys are its own, or else those of its set.
pub proof fn law_track_states_itself(s: ManifestState, a: Attrs, place: Place)
    requires
        s.template is Some,
        s.kind_for(s.track_view(a)) != TrackKind::Other,
        !s.seen.contains(parser::attr_or_empty(a, "id"@)),
    ensures
        ({
            let t = s.with_track(s.track_view(a), place);
            let r = t.reps.last();
            let own = parser::kids_of(a);
            &&& t.reps.drop_last() == s.reps
            &&& t.reps.len() == s.reps.len() + 1
            &&& t.seen == s.seen.push(r.id)
            &&& r.id == parser::attr_or_empty(a, "id"@)
            &&& parser::attr(a, "codecs"@) is Some ==> r.codecs == parser::attr(a, "codecs"@)->0
            &&& parser::attr(a, "codecs"@) is None ==> r.codecs == s.codecs
            &&& parser::attr_number(a, "bandwidth"@, u64::MAX as int) matches Some(v)
                ==> r.bandwidth == v
            &&& parser::attr_number(a, "width"@, u32::MAX as int) matches Some(v) ==> r.width == v
            &&& parser::attr_number(a, "height"@, u32::MAX as int) matches Some(v) ==> r.height
                == v
            &&& own.len() > 0 ==> r.manifest_kids == own
            &&& own.len() == 0 ==> r.manifest_kids == s.kids
            &&& s.kind != TrackKind::Other ==> r.kind == s.kind
            &&& r.init_url == parser::url_of(
                s.base(place),
                place.origin,
                parser::filled(s.template->0.init, s.track_view(a)),
            )
            &&& r.media_template == parser::url_of(
                s.base(place),
                place.origin,
                parser::filled(s.template->0.media, s.track_view(a)),
            )
        }),
{
    lemma_number_fits(a, "bandwidth"@, u64::MAX as int);
    lemma_number_fits(a, "width"@, u32::MAX as int);
    lemma_number_fits(a, "height"@, u32::MAX as int);
    let t = s.with_track(s.track_view(a), place);
    assert(t.reps.drop_last() =~= s.reps);
}

/// A track whose name has been seen, or of an unknown kind, is passed over.
pub proof fn law_repeated_track_is_passed_over(s: ManifestState, t: TrackView, place: Place)
    requires
        s.seen.contains(t.id) || s.kind_for(t) == TrackKind::Other,
    ensures
        s.with_track(t, place) == s,
{
}

/// A track that is not empty ends with its end tag, and is the one that its start tag opened.
pub proof fn law_track_ends_as_it_began(events: Seq<EventView>, b: int, n: int, place: Place)
    requires
        0 <= b < n,
        is_read(events, n, place),
        events[b] is Start,
        opens(events[b], "Representation"@),
        lack(events, b + 1, n, "Representation"@),
        forall|i: int|
            b < i < n ==> !((#[trigger] events[i]) is End && text::lossy_text(events[i]->End_name)
                == "Representation"@),
    ensures
        ({
            let t = state(events, n, place).track;
            let a = attrs(events[b]);
            &&& t is Some
            &&& t->0.id == parser::attr_or_empty(a, "id"@)
            &&& parser::attr_number(a, "bandwidth"@, u64::MAX as int) matches Some(v)
                ==> t->0.bandwidth == v
            &&& parser::attr(a, "codecs"@) matches Some(c) ==> t->0.codecs == c
            &&& state(events, n, place).kids == state(events, b, place).kids || !lack(
                events,
                b + 1,
                n,
                "AdaptationSet"@,
            )
        }),
    decreases n - b,
{
    lemma_names_differ();
    lemma_step(events, n, place);
    let a = attrs(events[b]);
    lemma_number_fits(a, "bandwidth"@, u64::MAX as int);
    let s = state(events, n - 1, place);
    assert(state(events, n, place) == s.with_event(events[n - 1], place));
    if b + 1 < n {
        law_track_ends_as_it_began(events, b, n - 1, place);
        assert(!opens(events[n - 1], "Representation"@));
    }
}

/// A union holds what either list holds, and nothing twice where the first list does not.
pub proof fn law_union_holds_both(a: Seq<Seq<char>>, b: Seq<Seq<char>>, k: Seq<char>)
    ensures
        parser::united(a, b).contains(k) <==> a.contains(k) || b.contains(k),
        a.is_prefix_of(parser::united(a, b)),
        a.no_duplicates() ==> parser::united(a, b).no_duplicates(),
    decreases b.len(),
{
    if b.len() > 0 {
        let d = b.drop_last();
        let u = parser::united(a, d);
        let r = parser::united(a, b);
        law_union_holds_both(a, d, k);
        law_union_holds_both(a, d, b.last());
        assert(b == d.push(b.last()));
        if b.contains(k) {
            let j = choose|j: int| 0 <= j < b.len() && b[j] == k;
            if j < d.len() {
                assert(d[j] == k);
            }
        }
        if d.contains(k) {
            let j = choose|j: int| 0 <= j < d.len() && d[j] == k;
            assert(b[j] == k);
        }
        assert(b[b.len() - 1] == b.last());
        if r != u {
            assert(r == u.push(b.last()));
            assert(r[u.len() as int] == b.last());
            if u.contains(k) {
                let j = choose|j: int| 0 <= j < u.len() && u[j] == k;
                assert(r[j] == k);
            }
            if r.contains(k) {
                let j = choose|j: int| 0 <= j < r.len() && r[j] == k;
                if j < u.len() {
                    assert(u[j] == k);
                }
            }
            assert(r.subrange(0, a.len() as int) =~= u.subrange(0, a.len() as int));
        }
    } else {
        assert(a.subrange(0, a.len() as int) =~= a);
    }
}

/// A segment list that is in order, with each number once, stays as it is.
pub proof fn law_ordered_segments_stay(s: Seq<SegmentRefView>)
    requires
        forall|i: int, j: int|
            0 <= i < j < s.len() ==> (#[trigger] s[i]).number < (#[trigger] s[j]).number,
    ensures
        parser::in_order(s) == s,
        parser::thinned(s) == s,
    decreases s.len(),
{
    if s.len() > 0 {
        let d = s.drop_last();
        assert forall|i: int, j: int| 0 <= i < j < d.len() implies (#[trigger] d[i]).number < (
        #[trigger] d[j]).number by {
            assert(d[i] == s[i] && d[j] == s[j]);
        }
        law_ordered_segments_stay(d);
        if d.len() > 0 {
            assert(d[d.len() - 1] == s[s.len() - 2]);
            assert(s[s.len() - 2].number < s[s.len() - 1].number);
        }
        assert(d.insert(d.len() as int, s.last()) =~= s);
        assert(d.push(s.last()) =~= s);
    }
}

/// Ordering keeps every segment.
pub proof fn law_ordering_keeps_segments(s: Seq<SegmentRefView>)
    ensures
        parser::in_order(s).to_multiset() == s.to_multiset(),
        parser::in_order(s).len() == s.len(),
    decreases s.len(),
{
    broadcast use vstd::seq_lib::group_to_multiset_ensures;

    if s.len() > 0 {
        let d = s.drop_last();
        let t = parser::in_order(d);
        law_ordering_keeps_segments(d);
        lemma_slot_bound(t, s.last().number, t.len() as int);
        let at = parser::slot(t, s.last().number, t.len() as int);
        vstd::seq_lib::to_multiset_insert(t, at, s.last());
        assert(s =~= d.push(s.last()));
    }
}

proof fn lemma_slot_bound(s: Seq<SegmentRefView>, number: u64, j: int)
    requires
        0 <= j,
    ensures
        0 <= parser::slot(s, number, j) <= j,
    decreases j,
{
    if j > 0 && s[j - 1].number > number {
        lemma_slot_bound(s, number, j - 1);
    }
}

/// Leaving out repeats keeps every number, with its first segment.
pub proof fn law_thinning_keeps_numbers(s: Seq<SegmentRefView>, i: int)
    requires
        0 <= i < s.len(),
    ensures
        exists|j: int|
            0 <= j < parser::thinned(s).len() && (#[trigger] parser::thinned(s)[j]).number
                == s[i].number,
        i == 0 ==> parser::thinned(s)[0] == s[0],
        i > 0 && s[i - 1].number != s[i].number ==> parser::thinned(s).contains(s[i]),
    decreases s.len(),
{
    let d = s.drop_last();
    let t = parser::thinned(d);
    let r = parser::thinned(s);
    lemma_thinned_last(s);
    if i < s.len() - 1 {
        law_thinning_keeps_numbers(d, i);
        let j = choose|j: int| 0 <= j < t.len() && (#[trigger] t[j]).number == d[i].number;
        assert(r[j].number == s[i].number);
        assert(d[i] == s[i]);
        if i > 0 && s[i - 1].number != s[i].number {
            assert(d[i - 1] == s[i - 1]);
            let k = choose|k: int| 0 <= k < t.len() && t[k] == d[i];
            assert(r[k] == s[i]);
        }
    } else {
        assert(r[r.len() - 1].number == s[i].number);
        if i > 0 && s[i - 1].number != s[i].number {
            lemma_thinned_last(d);
            assert(r == t.push(s.last()));
            assert(r[t.len() as int] == s[i]);
        }
    }
}

proof fn lemma_thinned_last(s: Seq<SegmentRefView>)
    requires
        s.len() > 0,
    ensures
        parser::thinned(s).len() > 0,
        parser::thinned(s).last().number == s.last().number,
    decreases s.len(),
{
    if s.len() > 1 {
        lemma_thinned_last(s.drop_last());
    }
}

/// Tracks of different names are not joined.
pub proof fn law_other_tracks_stay(reps: Seq<RepresentationView>)
    requires
        forall|i: int, j: int|
            0 <= i < j < reps.len() ==> (#[trigger] reps[i]).id != (#[trigger] reps[j]).id,
    ensures
        parser::grouped(reps) == reps,
    decreases reps.len(),
{
    if reps.len() > 0 {
        let d = reps.drop_last();
        assert forall|i: int, j: int| 0 <= i < j < d.len() implies (#[trigger] d[i]).id != (
        #[trigger] d[j]).id by {
            assert(d[i] == reps[i] && d[j] == reps[j]);
        }
        law_other_tracks_stay(d);
        lemma_no_place(d, reps.last().id, 0);
        assert(d.push(reps.last()) =~= reps);
    }
}

proof fn lemma_no_place(reps: Seq<RepresentationView>, id: Seq<char>, i: int)
    requires
        0 <= i,
        forall|j: int| 0 <= j < reps.len() ==> (#[trigger] reps[j]).id != id,
    ensures
        parser::track_place(reps, id, i) is None,
    decreases reps.len() - i,
{
    if i < reps.len() {
        assert(reps[i].id != id);
        lemma_no_place(reps, id, i + 1);
    }
}

/// Tracks of one name are joined: the segments of the later one come behind those of the first,
/// and the keys of both hold.
pub proof fn law_tracks_of_one_name_are_joined(a: RepresentationView, b: RepresentationView)
    requires
        a.id == b.id,
        a.total_duration_ts + b.total_duration_ts <= u64::MAX,
    ensures
        ({
            let g = parser::grouped(seq![a, b]);
            &&& g.len() == 1
            &&& g[0].id == a.id
            &&& g[0].segments == a.segments + b.segments
            &&& g[0].total_duration_ts == a.total_duration_ts + b.total_duration_ts
            &&& g[0].timescale == a.timescale
            &&& forall|k: Seq<char>| #[trigger]
                g[0].manifest_kids.contains(k) <==> a.manifest_kids.contains(k)
                    || b.manifest_kids.contains(k)
        }),
{
    let l = seq![a, b];
    assert(l.drop_last() =~= seq![a]);
    assert(seq![a].drop_last() =~= Seq::<RepresentationView>::empty());
    reveal_with_fuel(parser::grouped, 3);
    reveal_with_fuel(parser::track_place, 2);
    assert(Seq::<RepresentationView>::empty().push(a) =~= seq![a]);
    let g = parser::grouped(l);
    assert(g =~= seq![parser::joined(a, b)]);
    assert forall|k: Seq<char>| #[trigger]
        g[0].manifest_kids.contains(k) <==> a.manifest_kids.contains(k) || b.manifest_kids.contains(
            k,
        ) by {
        law_union_holds_both(a.manifest_kids, b.manifest_kids, k);
    }
}

/// A live manifest is one whose root says so; the last root holds.
pub proof fn law_type_makes_dynamic(s: ManifestState, a: Attrs, empty: bool, place: Place)
    ensures
        s.with_tag("MPD"@, a, empty, place).is_dynamic <==> parser::attr(a, "type"@) == Some(
            "dynamic"@,
        ),
{
}

/// Segments lie where the period says, else where the manifest says, else beside the manifest; and
/// what a period says holds only inside of it.
pub proof fn law_nearest_base_holds(s: ManifestState, a: Attrs, empty: bool, place: Place)
    ensures
        s.period_base matches Some(b) ==> s.base(place) == b,
        s.period_base is None && s.mpd_base is Some ==> s.base(place) == s.mpd_base->0,
        s.period_base is None && s.mpd_base is None ==> s.base(place) == place.base,
        s.with_tag("Period"@, a, empty, place).period_base is None,
        s.with_end("Period"@, place).period_base is None,
        s.with_tag("Period"@, a, empty, place).mpd_base == s.mpd_base,
        s.with_end("Period"@, place).mpd_base == s.mpd_base,
{
    lemma_names_differ();
}

} // verus!
