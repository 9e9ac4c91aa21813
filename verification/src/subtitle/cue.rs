//! Cues and the text that they make.

use vstd::prelude::*;

use super::time;
use super::time::TIME_LIMIT;
use crate::text;
use crate::time::{GREATEST, SECOND};

verus! {

/// The shortest time that a cue is shown, in nanoseconds.
pub const SHORTEST: i128 = 1_000_000;

/// An offset of a fragment is nearer to 0 than this.
pub const OFFSET_LIMIT: i128 = 0x4000_0000_0000_0000_0000_0000_0000_0000;

/// A cue. Times are in nanoseconds.
#[derive(Debug)]
pub struct Cue {
    pub start: i128,
    pub end: i128,
    pub text: String,
    pub settings: String,
    pub id: Option<String>,
}

/// What a value of [`Cue`] holds.
pub struct CueView {
    pub start: int,
    pub end: int,
    pub text: Seq<char>,
    pub settings: Seq<char>,
    pub id: Option<Seq<char>>,
}

impl View for Cue {
    type V = CueView;

    open spec fn view(&self) -> CueView {
        CueView {
            start: self.start as int,
            end: self.end as int,
            text: self.text@,
            settings: self.settings@,
            id: text::opt_text(self.id),
        }
    }
}

/// What a list of cues holds.
pub open spec fn cue_views(v: Seq<Cue>) -> Seq<CueView> {
    v.map_values(|c: Cue| c@)
}

/// Whether all times are ones that a cue can have.
pub open spec fn in_range(cues: Seq<CueView>) -> bool {
    forall|i: int|
        0 <= i < cues.len() ==> -TIME_LIMIT < (#[trigger] cues[i]).start < TIME_LIMIT && -2
            * TIME_LIMIT < cues[i].end < 2 * TIME_LIMIT
}

/// The greater of two.
pub open spec fn max_int(a: int, b: int) -> int {
    if a >= b {
        a
    } else {
        b
    }
}

/// The earliest start.
pub open spec fn first_start(cues: Seq<CueView>) -> int
    decreases cues.len(),
{
    if cues.len() == 0 {
        0
    } else if cues.len() == 1 {
        cues[0].start
    } else {
        let m = first_start(cues.drop_last());
        if cues.last().start < m {
            cues.last().start
        } else {
            m
        }
    }
}

/// What is taken off each time: cues that start far behind the fragment, but not without end, count
/// from another zero.
pub open spec fn zero_of(cues: Seq<CueView>, default_ns: int) -> int {
    if 2 * max_int(default_ns, SECOND as int) < first_start(cues) < GREATEST {
        first_start(cues)
    } else {
        0
    }
}

/// When a cue is shown.
pub open spec fn shown_from(c: CueView, zero: int, offset: int) -> int {
    max_int(c.start - zero + offset, 0)
}

/// When a cue is taken away, at least a millisecond later.
pub open spec fn shown_to(c: CueView, zero: int, offset: int) -> int {
    max_int(c.end - zero + offset, shown_from(c, zero, offset) + SHORTEST)
}

/// The lines of a cue.
pub open spec fn cue_text(c: CueView, zero: int, offset: int) -> Seq<char> {
    (match c.id {
        Some(id) => if text::trimmed(id).len() > 0 {
            text::trimmed(id) + "\n"@
        } else {
            Seq::empty()
        },
        None => Seq::empty(),
    }) + time::clock(shown_from(c, zero, offset)) + " --> "@ + time::clock(
        shown_to(c, zero, offset),
    ) + c.settings + "\n"@ + c.text + "\n"@
}

/// The lines of the first `n` cues, with an empty line between two.
pub open spec fn cues_text(cues: Seq<CueView>, n: int, zero: int, offset: int) -> Seq<char>
    decreases n,
{
    if n <= 0 {
        Seq::empty()
    } else {
        let t = cues_text(cues, n - 1, zero, offset);
        (if t.len() > 0 {
            t + "\n"@
        } else {
            t
        }) + cue_text(cues[n - 1], zero, offset)
    }
}

/// The body that cues make when the fragment starts at `offset`.
pub open spec fn body_of(cues: Seq<CueView>, offset: int, default_ns: int) -> Seq<char> {
    cues_text(cues, cues.len() as int, zero_of(cues, default_ns), offset)
}

/// No cue starts before zero, and each is shown for at least a millisecond.
pub proof fn law_cues_are_shown(c: CueView, zero: int, offset: int)
    ensures
        0 <= shown_from(c, zero, offset),
        shown_from(c, zero, offset) + SHORTEST <= shown_to(c, zero, offset),
{
}

fn earliest(cues: &[Cue]) -> (r: i128)
    requires
        in_range(cue_views(cues@)),
    ensures
        r == first_start(cue_views(cues@)),
        -TIME_LIMIT < r < TIME_LIMIT,
{
    let n: usize = cues.len();
    if n == 0 {
        return 0;
    }
    let ghost all = cue_views(cues@);
    assert(all[0] == cues@[0]@);
    assert(all.take(1).len() == 1 && all.take(1)[0] == all[0]);
    let mut m: i128 = cues[0].start;
    for i in 1..n
        invariant
            n == cues@.len(),
            all == cue_views(cues@),
            in_range(all),
            m == first_start(all.take(i as int)),
            -TIME_LIMIT < m < TIME_LIMIT,
    {
        let ghost part = all.take(i as int + 1);
        assert(part.drop_last() =~= all.take(i as int));
        assert(part.last() == cues@[i as int]@);
        assert(all[i as int] == cues@[i as int]@);
        if cues[i].start < m {
            m = cues[i].start;
        }
    }
    assert(all.take(n as int) =~= all);
    m
}

/// A time counted from `zero` in a fragment that starts at `offset`, but not before 0.
fn moved(t: i128, zero: i128, offset: i128) -> (r: i128)
    requires
        -2 * TIME_LIMIT < t < 2 * TIME_LIMIT,
        0 <= zero < TIME_LIMIT,
        -OFFSET_LIMIT < offset < OFFSET_LIMIT,
    ensures
        r == max_int(t - zero + offset, 0),
        r < OFFSET_LIMIT + 2 * TIME_LIMIT,
{
    let at: i128 = t - zero + offset;
    if at >= 0 {
        at
    } else {
        0
    }
}

fn push_cue(out: &mut String, c: &Cue, zero: i128, offset: i128)
    requires
        -TIME_LIMIT < c.start < TIME_LIMIT,
        -2 * TIME_LIMIT < c.end < 2 * TIME_LIMIT,
        0 <= zero < TIME_LIMIT,
        -OFFSET_LIMIT < offset < OFFSET_LIMIT,
    ensures
        final(out)@ == old(out)@ + cue_text(c@, zero as int, offset as int),
{
    let ghost before = out@;
    let from: i128 = moved(c.start, zero, offset);
    let least: i128 = from + SHORTEST;
    let end: i128 = moved(c.end, zero, offset);
    let to: i128 = if end >= least {
        end
    } else {
        least
    };
    let ghost mut head: Seq<char> = Seq::empty();
    if let Some(id) = &c.id {
        let t: Vec<char> = text::trim(text::to_chars(id.as_str()).as_slice());
        if t.len() > 0 {
            text::push_str(out, text::from_chars(t.as_slice()).as_str());
            text::push_str(out, "\n");
            proof {
                head = t@ + "\n"@;
            }
        }
    }
    assert(out@ =~= before + head);
    time::push_clock(out, from);
    text::push_str(out, " --> ");
    time::push_clock(out, to);
    text::push_str(out, c.settings.as_str());
    text::push_str(out, "\n");
    text::push_str(out, c.text.as_str());
    text::push_str(out, "\n");
    assert(out@ =~= before + cue_text(c@, zero as int, offset as int));
}

/// The body that cues make.
pub fn normalize_and_format_cues(cues: &[Cue], offset: i128, default_ns: u64) -> (r: String)
    requires
        in_range(cue_views(cues@)),
        -OFFSET_LIMIT < offset < OFFSET_LIMIT,
    ensures
        r@ == body_of(cue_views(cues@), offset as int, default_ns as int),
{
    let ghost all = cue_views(cues@);
    let first: i128 = earliest(cues);
    let least: i128 = if default_ns >= SECOND {
        default_ns as i128
    } else {
        SECOND as i128
    };
    let zero: i128 = if first > 2 * least && first < GREATEST as i128 {
        first
    } else {
        0
    };
    assert(zero == zero_of(all, default_ns as int));
    let mut out: String = String::new();
    let n: usize = cues.len();
    for i in 0..n
        invariant
            n == cues@.len(),
            all == cue_views(cues@),
            in_range(all),
            -OFFSET_LIMIT < offset < OFFSET_LIMIT,
            0 <= zero < TIME_LIMIT,
            out@ == cues_text(all, i as int, zero as int, offset as int),
    {
        assert(all[i as int] == cues@[i as int]@);
        let ghost before = out@;
        if text::to_chars(out.as_str()).len() > 0 {
            text::push_str(&mut out, "\n");
        }
        push_cue(&mut out, &cues[i], zero, offset);
    }
    out
}

/// The lines of one cue with no settings.
pub open spec fn plain_cue(from: int, to: int, t: Seq<char>) -> Seq<char> {
    time::clock(from) + " --> "@ + time::clock(to) + "\n"@ + text::trimmed(t) + "\n"@
}

/// The lines of one cue with no settings.
pub fn cue_body(from: i128, to: i128, t: &[char]) -> (r: String)
    ensures
        r@ == plain_cue(from as int, to as int, t@),
{
    let mut out: String = String::new();
    time::push_clock(&mut out, from);
    text::push_str(&mut out, " --> ");
    time::push_clock(&mut out, to);
    text::push_str(&mut out, "\n");
    text::push_str(&mut out, text::from_chars(text::trim(t).as_slice()).as_str());
    text::push_str(&mut out, "\n");
    assert(out@ =~= plain_cue(from as int, to as int, t@));
    out
}

} // verus!
