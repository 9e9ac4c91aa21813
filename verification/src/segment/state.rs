//! The model of a rolling list of segments: what is held, what is published, and what holds of
//! both whatever is pushed.

use vstd::prelude::*;

use crate::text;
use crate::time::SECOND;

verus! {

/// Segments that stay in memory behind the published window for requests under way.
pub const LIVE_GRACE_SEGMENTS: usize = 3;

/// One segment.
pub struct Piece<P> {
    pub seq: u64,
    pub duration_ns: i64,
    pub payload: P,
    pub discontinuity: bool,
}

/// A rolling list of segments.
pub struct Rolling<P> {
    pub segments: Seq<Piece<P>>,
    pub next_seq: u64,
    pub finished: bool,
    /// How many segments are published; 0 publishes all and drops none.
    pub window: nat,
    pub target_duration: u64,
    /// How many of the newest segments are held back.
    pub delay: nat,
    pub is_live: bool,
}

/// Whole seconds that a duration does not exceed: 0 for one below zero.
pub open spec fn ceil_seconds(ns: i64) -> u64 {
    if ns <= 0 {
        0
    } else {
        ((ns + SECOND - 1) / SECOND as int) as u64
    }
}

/// The greater of two.
pub open spec fn max64(a: u64, b: u64) -> u64 {
    if a >= b {
        a
    } else {
        b
    }
}

/// The newest segments that a live list holds back: at least one.
pub open spec fn delay_of(is_live: bool, delay: nat) -> nat {
    if !is_live {
        0
    } else if delay == 0 {
        1
    } else {
        delay
    }
}

/// The first segment with a number.
pub open spec fn find_piece<P>(s: Seq<Piece<P>>, seq: u64, i: int) -> Option<Piece<P>>
    decreases s.len() - i,
{
    if i < 0 || i >= s.len() {
        None
    } else if s[i].seq == seq {
        Some(s[i])
    } else {
        find_piece(s, seq, i + 1)
    }
}

impl<P> Rolling<P> {
    pub open spec fn start(window: nat, target_duration: u64, is_live: bool, delay: nat) -> Self {
        Rolling {
            segments: Seq::empty(),
            next_seq: 0,
            finished: false,
            window,
            target_duration,
            delay: delay_of(is_live, delay),
            is_live,
        }
    }

    /// How many segments a rolling list holds at most.
    pub open spec fn cap(self) -> nat {
        self.window + self.delay + LIVE_GRACE_SEGMENTS as nat
    }

    /// The segments that stay of a list.
    pub open spec fn kept(self, s: Seq<Piece<P>>) -> Seq<Piece<P>> {
        if self.window > 0 && s.len() > self.cap() {
            s.skip(s.len() - self.cap())
        } else {
            s
        }
    }

    /// After one more segment.
    pub open spec fn with_segment(self, duration_ns: i64, payload: P, discontinuity: bool) -> Self {
        Rolling {
            segments: self.kept(
                self.segments.push(
                    Piece { seq: self.next_seq, duration_ns, payload, discontinuity },
                ),
            ),
            next_seq: ((self.next_seq + 1) % 0x1_0000_0000_0000_0000) as u64,
            target_duration: max64(self.target_duration, ceil_seconds(duration_ns)),
            ..self
        }
    }

    pub open spec fn with_delay(self, delay: nat) -> Self {
        Rolling { delay: delay_of(self.is_live, delay), ..self }
    }

    /// A live list forgets its segments, not its numbers.
    pub open spec fn cleared(self) -> Self {
        if self.is_live {
            Rolling { segments: Seq::empty(), finished: false, ..self }
        } else {
            self
        }
    }

    pub open spec fn ended(self) -> Self {
        Rolling { finished: true, ..self }
    }

    /// The place behind the last published segment.
    pub open spec fn published_end(self) -> nat {
        if self.window == 0 {
            self.segments.len()
        } else if self.segments.len() <= self.delay {
            0
        } else {
            (self.segments.len() - self.delay) as nat
        }
    }

    /// The place of the first published segment.
    pub open spec fn published_start(self) -> nat {
        if self.window > 0 && self.published_end() > self.window {
            (self.published_end() - self.window) as nat
        } else {
            0
        }
    }

    /// The number of the first published segment, or the next one where nothing is held.
    pub open spec fn media_sequence(self) -> u64 {
        if self.published_start() < self.segments.len() {
            self.segments[self.published_start() as int].seq
        } else {
            self.next_seq
        }
    }

    /// Segments are numbered one after the other up to the next number, none is longer than the
    /// target duration, and a live list holds back at least one.
    pub open spec fn wf(self) -> bool {
        &&& self.segments.len() <= self.next_seq
        &&& forall|i: int|
            0 <= i < self.segments.len() ==> (#[trigger] self.segments[i]).seq == self.next_seq
                - self.segments.len() + i
        &&& forall|i: int|
            0 <= i < self.segments.len() ==> ceil_seconds(
                (#[trigger] self.segments[i]).duration_ns,
            ) <= self.target_duration
        &&& self.is_live ==> self.delay >= 1
        &&& !self.is_live ==> self.delay == 0
    }

    /// The text of a playlist whose segments are found under `prefix`, by `stem`, number and
    /// `suffix`.
    pub open spec fn playlist(
        self,
        prefix: Seq<char>,
        stem: Seq<char>,
        suffix: Seq<char>,
    ) -> Seq<char> {
        "#EXTM3U\n#EXT-X-VERSION:3\n#EXT-X-TARGETDURATION:"@ + text::decimal(
            max64(self.target_duration, 1) as int,
        ) + "\n#EXT-X-MEDIA-SEQUENCE:"@ + text::decimal(self.media_sequence() as int) + (
        if self.window > 0 {
            "\n"@
        } else {
            "\n#EXT-X-PLAYLIST-TYPE:EVENT\n"@
        }) + entries(
            self.segments,
            self.published_start() as int,
            self.published_end() as int,
            prefix,
            stem,
            suffix,
        ) + (if self.finished && self.window == 0 {
            "#EXT-X-ENDLIST\n"@
        } else {
            Seq::empty()
        })
    }
}

/// The length of a duration in whole milliseconds; a half goes to the even one.
pub open spec fn millis(ns: i64) -> int {
    let m: int = if ns < 0 {
        -ns
    } else {
        ns as int
    };
    let q = m / 1_000_000;
    let r = m % 1_000_000;
    if r > 500_000 || (r == 500_000 && q % 2 == 1) {
        q + 1
    } else {
        q
    }
}

/// A duration in seconds with three digits behind the point.
pub open spec fn seconds_text(ns: i64) -> Seq<char> {
    let ms = millis(ns);
    (if ns < 0 {
        seq!['-']
    } else {
        Seq::empty()
    }) + text::decimal(ms / 1000) + seq![
        '.',
        text::digit(ms / 100 % 10),
        text::digit(ms / 10 % 10),
        text::digit(ms % 10),
    ]
}

/// The lines of one segment.
pub open spec fn entry<P>(
    p: Piece<P>,
    prefix: Seq<char>,
    stem: Seq<char>,
    suffix: Seq<char>,
) -> Seq<char> {
    (if p.discontinuity {
        "#EXT-X-DISCONTINUITY\n"@
    } else {
        Seq::empty()
    }) + "#EXTINF:"@ + seconds_text(p.duration_ns) + ",\n"@ + prefix + stem + text::decimal(
        p.seq as int,
    ) + suffix
}

/// The lines of the segments from `i` up to `end`.
pub open spec fn entries<P>(
    s: Seq<Piece<P>>,
    i: int,
    end: int,
    prefix: Seq<char>,
    stem: Seq<char>,
    suffix: Seq<char>,
) -> Seq<char>
    decreases end - i,
{
    if i >= end {
        Seq::empty()
    } else {
        entry(s[i], prefix, stem, suffix) + entries(s, i + 1, end, prefix, stem, suffix)
    }
}

/// A new list is in order.
pub proof fn law_start_is_wf<P>(window: nat, target_duration: u64, is_live: bool, delay: nat)
    ensures
        Rolling::<P>::start(window, target_duration, is_live, delay).wf(),
{
}

/// A push keeps a list in order: numbers stay one after the other, and the target duration grows
/// with the longest segment.
pub proof fn law_push_keeps_order<P>(
    o: Rolling<P>,
    duration_ns: i64,
    payload: P,
    discontinuity: bool,
)
    requires
        o.wf(),
        o.next_seq < u64::MAX,
    ensures
        o.with_segment(duration_ns, payload, discontinuity).wf(),
{
    let all = o.segments.push(Piece { seq: o.next_seq, duration_ns, payload, discontinuity });
    let n = o.with_segment(duration_ns, payload, discontinuity);
    let dropped = all.len() - n.segments.len();
    assert forall|i: int| 0 <= i < n.segments.len() implies (#[trigger] n.segments[i]).seq
        == n.next_seq - n.segments.len() + i && ceil_seconds(n.segments[i].duration_ns)
        <= n.target_duration by {
        assert(n.segments[i] == all[dropped + i]);
        if dropped + i < o.segments.len() {
            assert(all[dropped + i] == o.segments[dropped + i]);
        }
    }
}

/// Clearing, ending and a new delay keep a list in order.
pub proof fn law_others_keep_order<P>(o: Rolling<P>, delay: nat)
    requires
        o.wf(),
    ensures
        o.cleared().wf(),
        o.ended().wf(),
        o.with_delay(delay).wf(),
{
}

/// A rolling list never holds more than the window, the delay and the grace.
pub proof fn law_memory_is_bounded<P>(
    o: Rolling<P>,
    duration_ns: i64,
    payload: P,
    discontinuity: bool,
)
    requires
        o.window > 0,
    ensures
        o.with_segment(duration_ns, payload, discontinuity).segments.len() <= o.window + o.delay
            + LIVE_GRACE_SEGMENTS,
{
}

/// A live playlist never lists the newest `delay` segments, and lists at most `window`.
pub proof fn law_newest_are_held_back<P>(o: Rolling<P>)
    requires
        o.window > 0,
    ensures
        o.published_start() <= o.published_end() <= o.segments.len(),
        o.published_end() - o.published_start() <= o.window,
        o.published_end() > 0 ==> o.published_end() + o.delay == o.segments.len(),
{
}

/// The number of the first listed segment never goes back as segments are pushed.
pub proof fn law_media_sequence_never_goes_back<P>(
    o: Rolling<P>,
    duration_ns: i64,
    payload: P,
    discontinuity: bool,
)
    requires
        o.wf(),
        o.next_seq < u64::MAX,
    ensures
        o.media_sequence() <= o.with_segment(
            duration_ns,
            payload,
            discontinuity,
        ).media_sequence(),
{
    let n = o.with_segment(duration_ns, payload, discontinuity);
    law_push_keeps_order(o, duration_ns, payload, discontinuity);
    assert(o.media_sequence() == o.next_seq - o.segments.len() + o.published_start());
    assert(n.media_sequence() == n.next_seq - n.segments.len() + n.published_start());
}

/// Clearing a live list does not reset its numbers: the next playlist starts behind all that were
/// given out.
pub proof fn law_clear_keeps_sequence<P>(o: Rolling<P>)
    requires
        o.wf(),
        o.is_live,
    ensures
        o.cleared().segments.len() == 0,
        o.cleared().next_seq == o.next_seq,
        o.cleared().media_sequence() == o.next_seq,
        forall|i: int|
            0 <= i < o.segments.len() ==> (#[trigger] o.segments[i]).seq
                < o.cleared().media_sequence(),
{
}

proof fn lemma_find_piece<P>(o: Rolling<P>, i: int, j: int)
    requires
        o.wf(),
        0 <= i <= j < o.segments.len(),
    ensures
        find_piece(o.segments, o.segments[j].seq, i) == Some(o.segments[j]),
    decreases j - i,
{
    if i < j {
        lemma_find_piece(o, i + 1, j);
    }
}

/// Every segment that is held, and so every one that a playlist lists, is served under its number.
pub proof fn law_held_segments_are_served<P>(o: Rolling<P>, i: int)
    requires
        o.wf(),
        0 <= i < o.segments.len(),
    ensures
        find_piece(o.segments, o.segments[i].seq, 0) == Some(o.segments[i]),
{
    lemma_find_piece(o, 0, i);
}

/// A segment is served under the number that its push gave out.
pub proof fn law_pushed_segment_is_served<P>(
    o: Rolling<P>,
    duration_ns: i64,
    payload: P,
    discontinuity: bool,
)
    requires
        o.wf(),
        o.next_seq < u64::MAX,
    ensures
        find_piece(
            o.with_segment(duration_ns, payload, discontinuity).segments,
            o.next_seq,
            0,
        ) == Some(Piece { seq: o.next_seq, duration_ns, payload, discontinuity }),
{
    let n = o.with_segment(duration_ns, payload, discontinuity);
    law_push_keeps_order(o, duration_ns, payload, discontinuity);
    let last = n.segments.len() - 1;
    assert(n.segments[last] == Piece { seq: o.next_seq, duration_ns, payload, discontinuity });
    lemma_find_piece(n, 0, last);
}

/// The target duration of a playlist is at least as long as each segment in it.
pub proof fn law_target_covers_segments<P>(o: Rolling<P>, i: int)
    requires
        o.wf(),
        0 <= i < o.segments.len(),
    ensures
        o.segments[i].duration_ns <= max64(o.target_duration, 1) * SECOND,
{
    assert(ceil_seconds(o.segments[i].duration_ns) <= o.target_duration);
}

/// A duration in a playlist is the nearest number of milliseconds, and is read back as that.
pub proof fn law_listed_duration_is_read_back(ns: i64)
    ensures
        ({
            let m = if ns < 0 {
                -ns
            } else {
                ns as int
            };
            let read = crate::time::decimal_ns(seconds_text(ns));
            &&& -500_000 <= millis(ns) * 1_000_000 - m <= 500_000
            &&& ns >= 0 ==> read == Some(millis(ns) * 1_000_000)
            &&& ns < 0 ==> read == Some(-(millis(ns) * 1_000_000))
        }),
{
    let ms = millis(ns);
    lemma_millis(ns);
    lemma_seconds_shape(ns);
    crate::time::law_milliseconds_are_read_back(ms / 1000, ms % 1000);
    assert(ms / 1000 * 1_000_000_000 + ms % 1000 * 1_000_000 == ms * 1_000_000);
}

proof fn lemma_millis(ns: i64)
    ensures
        0 <= millis(ns) <= 0x7fff_ffff_ffff_ffff,
        ns >= 0 ==> -500_000 <= millis(ns) * 1_000_000 - ns <= 500_000,
        ns < 0 ==> -500_000 <= millis(ns) * 1_000_000 + ns <= 500_000,
{
}

proof fn lemma_seconds_shape(ns: i64)
    ensures
        ({
            let ms = millis(ns);
            let t = text::decimal(ms / 1000) + seq!['.'] + text::decimal3(ms % 1000);
            let m = seq!['-'] + text::decimal(ms / 1000) + seq!['.'] + text::decimal3(ms % 1000);
            seconds_text(ns) == if ns < 0 {
                m
            } else {
                t
            }
        }),
{
    let ms = millis(ns);
    lemma_millis(ns);
    let n = ms % 1000;
    assert(n / 100 == ms / 100 % 10);
    assert(n / 10 % 10 == ms / 10 % 10);
    assert(n % 10 == ms % 10);
    let digits = seq![
        '.',
        text::digit(ms / 100 % 10),
        text::digit(ms / 10 % 10),
        text::digit(ms % 10),
    ];
    assert(digits =~= seq!['.'] + text::decimal3(n));
    let w = text::decimal(ms / 1000);
    if ns < 0 {
        assert(seq!['-'] + w + digits =~= seq!['-'] + w + seq!['.'] + text::decimal3(n));
    } else {
        assert(Seq::<char>::empty() + w + digits =~= w + seq!['.'] + text::decimal3(n));
    }
}

} // verus!
