//! What becomes of the times of subtitles.

use vstd::prelude::*;

use super::cue;
use super::cue::{CueView, SHORTEST};
use super::fragment;
use super::time;
use super::ttml;
use super::ttml::TtmlState;
use super::webvtt;
use crate::mp4::sample::SampleView;
use crate::text;
use crate::time as clock;
use crate::xml;
use crate::xml::{AttrView, EventView};

verus! {

proof fn lemma_two_digits(n: int)
    requires
        0 <= n,
    ensures
        text::is_digits(text::decimal2(n)),
        text::digits_value(text::decimal2(n)) == n,
{
    text::law_decimal_round_trip(n);
    if n < 10 {
        let s = text::decimal2(n);
        assert(s.len() == 2);
        let d = s.drop_last();
        assert(d.drop_last() =~= Seq::<char>::empty());
        assert(s.last() as int == 48 + n);
        assert(d.last() as int == 48);
        reveal_with_fuel(text::digits_value, 3);
    }
}

proof fn lemma_digits_lack(s: Seq<char>, c: char)
    requires
        text::is_digits(s),
        !('0' <= c && c <= '9'),
    ensures
        !s.contains(c),
{
    if s.contains(c) {
        let j = choose|j: int| 0 <= j < s.len() && s[j] == c;
        assert('0' <= s[j] && s[j] <= '9');
    }
}

proof fn lemma_whole_number(s: Seq<char>)
    requires
        text::is_digits(s),
        0 <= text::digits_value(s) * 1_000_000_000 <= clock::GREATEST,
    ensures
        clock::decimal_ns(s) == Some(text::digits_value(s) * 1_000_000_000),
{
    clock::law_digits_are_seconds(s);
}

/// A time that is written as a clock is read back, to the nearest millisecond.
pub proof fn law_clock_is_read_back(ns: int)
    requires
        0 <= ns <= 0xffff_ffff_ffff_ffff * 1_000_000,
    ensures
        ({
            let ms = time::rounded_millis(ns);
            &&& time::vtt_time(time::clock(ns)) == Some(ms * 1_000_000)
            &&& -500_000 <= ms * 1_000_000 - ns <= 500_000
        }),
{
    let ms = time::rounded_millis(ns);
    let h = ms / 3_600_000;
    let m = ms % 3_600_000 / 60_000;
    let s = ms % 60_000 / 1000;
    let f = ms % 1000;
    let (a, b, c, d) = (text::decimal2(h), text::decimal2(m), text::decimal2(s), text::decimal3(f));
    lemma_two_digits(h);
    lemma_two_digits(m);
    lemma_two_digits(s);
    clock::lemma_three_digits(f);
    lemma_digits_lack(a, ':');
    lemma_digits_lack(b, ':');
    let last = c + seq!['.'] + d;
    assert(!last.contains(':')) by {
        lemma_digits_lack(c, ':');
        lemma_digits_lack(d, ':');
        if last.contains(':') {
            let j = choose|j: int| 0 <= j < last.len() && last[j] == ':';
            if j < c.len() {
                assert(c[j] == ':');
            } else if j > c.len() {
                assert(d[j - c.len() - 1] == ':');
            }
        }
    }
    reveal_strlit(":");
    reveal_strlit(".");
    reveal_strlit(",");
    let t = time::clock(ns);
    assert(t =~= a + seq![':'] + (b + seq![':'] + last)) by {
        reveal(time::clock);
        assert(":"@ =~= seq![':']);
        assert("."@ =~= seq!['.']);
    }
    text::lemma_first_of_pieces(a, ':', b + seq![':'] + last);
    text::lemma_first_of_pieces(b, ':', last);
    text::lemma_first_of_pieces(last, ':', Seq::empty());
    let p = text::pieces(t, ':');
    assert(p =~= seq![a, b, last]);
    assert(!last.contains(","@[0])) by {
        lemma_digits_lack(c, ',');
        lemma_digits_lack(d, ',');
        if last.contains(',') {
            let j = choose|j: int| 0 <= j < last.len() && last[j] == ',';
            if j < c.len() {
                assert(c[j] == ',');
            } else if j > c.len() {
                assert(d[j - c.len() - 1] == ',');
            }
        }
    }
    text::lemma_nothing_is_replaced(last, ","@, "."@);
    lemma_whole_number(a);
    lemma_whole_number(b);
    clock::lemma_pow9();
    assert((s * 1000 + f) * 1_000_000 == s * 1_000_000_000 + f * 1_000_000);
    clock::law_decimal_counts_by_places(c, d);
    assert(h * 3600 * 1_000_000_000 + m * 60 * 1_000_000_000 + s * 1_000_000_000 + f * 1_000_000
        == ms * 1_000_000);
}

/// A cue of a fragment that starts later is shown as much later, where it does not start before
/// zero; and stays as long as it was, where that is at least a millisecond.
pub proof fn law_cues_follow_offset(c: CueView, zero: int, a: int, b: int)
    requires
        0 <= c.start - zero + a,
        a <= b,
        c.start + SHORTEST <= c.end,
    ensures
        cue::shown_from(c, zero, b) - cue::shown_from(c, zero, a) == b - a,
        cue::shown_to(c, zero, b) - cue::shown_to(c, zero, a) == b - a,
        cue::shown_to(c, zero, a) - cue::shown_from(c, zero, a) == c.end - c.start,
        zero == 0 ==> cue::shown_from(c, zero, a) == c.start + a,
{
}

/// Cues stay as far apart as they are: one common time is taken off all of them.
pub proof fn law_cues_stay_apart(c: CueView, d: CueView, zero: int, offset: int)
    requires
        0 <= c.start - zero + offset,
        c.start <= d.start,
    ensures
        cue::shown_from(d, zero, offset) - cue::shown_from(c, zero, offset) == d.start - c.start,
{
}

proof fn lemma_first_start(cues: Seq<CueView>)
    requires
        cues.len() > 0,
    ensures
        forall|i: int| 0 <= i < cues.len() ==> cue::first_start(cues) <= (#[trigger] cues[i]).start,
        exists|i: int| 0 <= i < cues.len() && (#[trigger] cues[i]).start == cue::first_start(cues),
    decreases cues.len(),
{
    if cues.len() > 1 {
        let d = cues.drop_last();
        lemma_first_start(d);
        assert forall|i: int| 0 <= i < cues.len() implies cue::first_start(cues) <= (
        #[trigger] cues[i]).start by {
            if i < d.len() {
                assert(d[i] == cues[i]);
            }
        }
        let j = choose|j: int| 0 <= j < d.len() && (#[trigger] d[j]).start == cue::first_start(d);
        assert(cues[j].start == cue::first_start(d));
        assert(cues[cues.len() - 1] == cues.last());
    } else {
        assert(cues[0].start == cue::first_start(cues));
    }
}

/// Cues that count from the start of their fragment stay where they are; those that all start more
/// than twice the length of the fragment (or two seconds) in count from the first of them, which
/// is then shown at the start.
pub proof fn law_far_cues_count_from_first(cues: Seq<CueView>, default_ns: int, offset: int, i: int)
    requires
        0 <= i < cues.len(),
        0 <= offset,
        cues[i].start < clock::GREATEST,
    ensures
        ({
            let zero = cue::zero_of(cues, default_ns);
            let far = 2 * cue::max_int(default_ns, 1_000_000_000);
            &&& cues[i].start <= far ==> zero == 0
            &&& zero <= 0 || zero <= cues[i].start
            &&& (forall|j: int| 0 <= j < cues.len() ==> far < (#[trigger] cues[j]).start < clock::GREATEST)
                ==> (exists|j: int|
                0 <= j < cues.len() && cue::shown_from(#[trigger] cues[j], zero, offset) == offset)
        }),
{
    lemma_first_start(cues);
    let zero = cue::zero_of(cues, default_ns);
    let far = 2 * cue::max_int(default_ns, 1_000_000_000);
    if forall|j: int| 0 <= j < cues.len() ==> far < (#[trigger] cues[j]).start < clock::GREATEST {
        let j = choose|j: int|
            0 <= j < cues.len() && (#[trigger] cues[j]).start == cue::first_start(cues);
        assert(cue::shown_from(cues[j], zero, offset) == offset);
    }
}

/// A paragraph is shown from its beginning to its end, or for its duration, or else for the length
/// of the fragment; the stated end goes before the duration.
pub proof fn law_paragraph_ends_as_stated(s: TtmlState, start: int, default_ns: int)
    ensures
        s.end matches Some(e) ==> s.end_of(start, default_ns) == e,
        s.end is None && s.dur is Some ==> s.end_of(start, default_ns) == start + s.dur->0,
        s.end is None && s.dur is None && default_ns >= SHORTEST ==> s.end_of(start, default_ns)
            == start + default_ns,
{
}

/// Bodies that are put one behind the other keep their texts, with an empty line between them.
pub proof fn law_bodies_are_kept(t: Seq<char>, body: Seq<char>)
    requires
        text::trimmed(body) == body,
        body.len() > 0,
    ensures
        t.is_prefix_of(fragment::with_body(t, body)),
        fragment::with_body(t, body).drop_last().skip(
            fragment::with_body(t, body).len() - 1 - body.len(),
        ) == body,
        fragment::with_body(t, body).last() == '\n',
        fragment::with_body(t, Seq::empty()) == t,
{
    reveal_strlit("\n");
    let r = fragment::with_body(t, body);
    let n = r.len() - 1 - body.len();
    assert(r.subrange(0, t.len() as int) =~= t);
    assert(r.drop_last().skip(n) =~= body);
}

/// The samples of a fragment start one behind the other: each where those before it end.
pub proof fn law_samples_follow_each_other(samples: Seq<SampleView>, i: int)
    requires
        0 <= i < samples.len(),
    ensures
        fragment::elapsed(samples, 0) == 0,
        fragment::elapsed(samples, i + 1) == fragment::elapsed(samples, i) + samples[i].duration,
{
}

/// Ticks are converted to nanoseconds with an error below one.
pub proof fn law_ticks_are_converted(ticks: int, timescale: u32)
    requires
        0 <= ticks,
        timescale > 0,
    ensures
        ({
            let ns = fragment::ticks_ns(ticks, timescale);
            ns * timescale <= ticks * 1_000_000_000 < (ns + 1) * timescale
        }),
{
    let s = timescale as int;
    let q = ticks * 1_000_000_000 / s;
    assert(q * s <= ticks * 1_000_000_000 && ticks * 1_000_000_000 < (q + 1) * s)
        by (nonlinear_arith)
        requires
            q == ticks * 1_000_000_000 / s,
            s > 0,
    ;
}

/// Whether a text is a time without white space, dashes or line feeds.
pub open spec fn is_bare(s: Seq<char>) -> bool {
    s.len() > 0 && forall|i: int|
        0 <= i < s.len() ==> !text::white(#[trigger] s[i]) && s[i] != '-' && s[i] != '>'
}

proof fn lemma_bare_word(s: Seq<char>)
    requires
        is_bare(s),
    ensures
        text::words(seq![' '] + s) == seq![s],
        text::trimmed(s) == s,
{
    let t = seq![' '] + s;
    let m = t.map_values(|c: char| text::space_for(c));
    assert(m =~= Seq::<char>::empty() + seq![' '] + s) by {
        assert forall|i: int| 0 <= i < t.len() implies m[i] == t[i] by {
            if i > 0 {
                assert(t[i] == s[i - 1]);
            }
        }
    }
    assert(!s.contains(' ')) by {
        if s.contains(' ') {
            let j = choose|j: int| 0 <= j < s.len() && s[j] == ' ';
            assert(!text::white(s[j]));
        }
    }
    text::lemma_first_of_pieces(Seq::empty(), ' ', s);
    text::lemma_first_of_pieces(s, ' ', Seq::empty());
    let p = text::pieces(m, ' ');
    assert(p =~= seq![Seq::<char>::empty(), s]);
    assert(p.drop_last() =~= seq![Seq::<char>::empty()]);
    assert(p.drop_last().drop_last() =~= Seq::<Seq<char>>::empty());
    reveal_with_fuel(text::nonempty, 3);
    assert(text::nonempty(p) =~= seq![s]);
    assert(!text::white(s[0]));
    assert(!text::white(s[s.len() - 1]));
}

proof fn lemma_arrow(a: Seq<char>, b: Seq<char>, i: int)
    requires
        is_bare(a),
        0 <= i <= a.len() + 1,
    ensures
        text::find_at(a + " --> "@ + b, "-->"@, i) == Some(a.len() as int + 1),
    decreases a.len() + 1 - i,
{
    reveal_strlit(" --> ");
    reveal_strlit("-->");
    let s = a + " --> "@ + b;
    let n = a.len() as int;
    let x = s.subrange(i, i + 3);
    if i == n + 1 {
        assert(x =~= "-->"@);
    } else {
        if i < n {
            assert(s[i] == a[i]);
            assert(a[i] != '-');
        } else {
            assert(s[i] == ' ');
        }
        assert(x[0] == s[i]);
        assert("-->"@[0] == '-');
        lemma_arrow(a, b, i + 1);
    }
}

/// A line of two times with an arrow between them states a cue from the first to the second.
pub proof fn law_timing_line_is_read_back(a: Seq<char>, b: Seq<char>)
    requires
        is_bare(a),
        is_bare(b),
    ensures
        webvtt::timing_of(a + " --> "@ + b) == match (time::vtt_time(a), time::vtt_time(b)) {
            (Some(x), Some(y)) => Some((x, y, Seq::<char>::empty())),
            _ => None,
        },
{
    reveal_strlit(" --> ");
    let s = a + " --> "@ + b;
    let n = a.len() as int;
    lemma_arrow(a, b, 0);
    assert(s.skip(n + 4) =~= seq![' '] + b);
    lemma_bare_word(b);
    let head = s.take(n + 1);
    assert(head =~= a.push(' '));
    text::lemma_trimmed_end(head);
    assert(head.drop_last() =~= a);
    lemma_bare_word(a);
}

/// A block of a timing line and a line of text is a cue with that text.
pub proof fn law_cue_is_read_back(a: Seq<char>, b: Seq<char>, t: Seq<char>, from: int, to: int)
    requires
        is_bare(a),
        is_bare(b),
        '0' <= a[0] <= '9',
        time::vtt_time(a) == Some(from),
        time::vtt_time(b) == Some(to),
        t.len() > 0,
        text::trimmed(t) == t,
        !t.contains('\n'),
    ensures
        webvtt::cue_of(a + " --> "@ + b + seq!['\n'] + t) == Some(
            CueView { start: from, end: to, text: t, settings: Seq::empty(), id: None },
        ),
{
    reveal_strlit(" --> ");
    let line = a + " --> "@ + b;
    let block = line + seq!['\n'] + t;
    law_timing_line_is_read_back(a, b);
    text::lemma_trimmed_shape(t);
    assert(!text::white(t.last()));
    assert(!text::white(b[b.len() - 1]));
    assert(line.last() == b.last());
    assert(!line.contains('\n')) by {
        if line.contains('\n') {
            let j = choose|j: int| 0 <= j < line.len() && line[j] == '\n';
            if j < a.len() {
                assert(!text::white(a[j]));
            } else if j >= a.len() + 5 {
                assert(!text::white(b[j - a.len() - 5]));
            }
        }
    }
    text::lemma_first_line(line, t);
    text::lemma_only_line(t);
    assert(text::without_return(line) == line);
    let lines = webvtt::block_lines(block);
    assert(text::lines_of(block) =~= seq![line, t]);
    assert(text::trim_end(line) == line);
    assert(text::trim_end(t) == t);
    assert(lines =~= seq![line, t]);
    assert(line[0] == a[0]);
    lemma_no_header(line);
    lemma_arrow(a, b, 0);
    assert(webvtt::timing_line(lines, 0) == Some(0int));
    assert(lines.subrange(1, 2) =~= seq![t]);
    assert(text::joined(seq![t], seq!['\n']) == t);
}

proof fn lemma_no_header(line: Seq<char>)
    requires
        line.len() > 0,
        '0' <= line[0] <= '9',
        !text::white(line.last()),
    ensures
        !webvtt::is_no_cue(line),
{
    reveal_strlit("WEBVTT");
    reveal_strlit("NOTE");
    reveal_strlit("STYLE");
    reveal_strlit("REGION");
    assert(text::skip_char(line, '\u{feff}') == line);
    assert(text::trimmed(line) == line);
    assert forall|p: Seq<char>| p.len() > 0 && !('0' <= p[0] <= '9') implies !(
    #[trigger] p.is_prefix_of(line)) by {
        if p.is_prefix_of(line) {
            assert(line.subrange(0, p.len() as int)[0] == line[0]);
        }
    }
}

/// The value of an attribute of a paragraph.
pub open spec fn named(key: Seq<u8>, name: Seq<char>) -> bool {
    ttml::local(key) == name
}

/// A paragraph with a beginning, an end and text is a cue from the one to the other with that text;
/// what stood in a paragraph before it does not count.
pub proof fn law_paragraph_becomes_cue(
    s: TtmlState,
    p: Seq<u8>,
    begin: AttrView,
    end: AttrView,
    raw: Seq<u8>,
    from: int,
    to: int,
    words: Seq<char>,
    default_ns: int,
)
    requires
        named(p, "p"@),
        named(begin.key, "begin"@),
        named(end.key, "end"@),
        time::time_expression(text::lossy_text(begin.value)) == Some(from),
        time::time_expression(text::lossy_text(end.value)) == Some(to),
        from < to,
        xml::xml_unescaped(text::lossy_text(raw)) == Some(words),
        text::trimmed(words).len() > 0,
    ensures
        ({
            let a = s.with_event(
                EventView::Start { name: p, attrs: seq![Some(begin), Some(end)] },
                default_ns,
            );
            let b = a.with_event(EventView::Text { raw }, default_ns);
            let c = b.with_event(EventView::End { name: p }, default_ns);
            c.cues == s.cues.push(
                CueView {
                    start: from,
                    end: to,
                    text: text::trimmed(words),
                    settings: Seq::empty(),
                    id: None,
                },
            ) && !c.in_p
        }),
{
    reveal_strlit("begin");
    reveal_strlit("end");
    reveal_strlit("dur");
    reveal_strlit("p");
    reveal_strlit("br");
    assert("begin"@.len() == 5 && "end"@.len() == 3 && "dur"@.len() == 3);
    assert("end"@[0] == 'e' && "dur"@[0] == 'd');
    let attrs = seq![Some(begin), Some(end)];
    let o = s.opened();
    reveal_with_fuel(TtmlState::with_attrs, 3);
    let a = o.with_attrs(attrs, 2);
    assert(a == o.with_attr(attrs[0]).with_attr(attrs[1]));
    text::law_trim_is_idempotent(words);
    assert(Seq::<char>::empty() + text::trimmed(words) =~= text::trimmed(words));
}

/// Outside of paragraphs text counts for nothing.
pub proof fn law_text_outside_paragraphs_is_passed_over(s: TtmlState, raw: Seq<u8>, default_ns: int)
    requires
        !s.in_p,
    ensures
        s.with_event(EventView::Text { raw }, default_ns) == s,
        s.with_event(EventView::CData { raw }, default_ns) == s,
{
}

proof fn lemma_suffix_char(p: Seq<char>, s: Seq<char>)
    requires
        p.len() > 0,
        p.is_suffix_of(s),
    ensures
        s.len() >= p.len(),
        s.last() == p.last(),
{
    assert(s.subrange(s.len() - p.len(), s.len() as int)[p.len() - 1] == s.last());
}

proof fn lemma_unit(n: int, unit: Seq<char>)
    requires
        0 <= n,
        unit.len() > 0,
        forall|i: int| 0 <= i < unit.len() ==> !text::white(#[trigger] unit[i]),
    ensures
        text::trimmed(text::decimal(n) + unit) == text::decimal(n) + unit,
        text::before_suffix(text::decimal(n) + unit, unit) == Some(text::decimal(n)),
        text::trimmed(text::decimal(n)) == text::decimal(n),
{
    text::law_decimal_round_trip(n);
    let d = text::decimal(n);
    let s = d + unit;
    assert('0' <= d[0] && d[0] <= '9');
    assert('0' <= d[d.len() - 1] && d[d.len() - 1] <= '9');
    assert(s[0] == d[0]);
    assert(s.last() == unit[unit.len() - 1]);
    assert(s.subrange(s.len() - unit.len(), s.len() as int) =~= unit);
    assert(s.take(s.len() - unit.len()) =~= d);
}

/// A number with a unit states hours, minutes, seconds or milliseconds.
pub proof fn law_units_are_read_back(n: int)
    requires
        0 <= n,
        n * 1_000_000_000 <= clock::GREATEST,
    ensures
        time::time_expression(text::decimal(n) + "ms"@) == Some(n * 1_000_000),
        time::time_expression(text::decimal(n) + "s"@) == Some(n * 1_000_000_000),
        time::time_expression(text::decimal(n) + "m"@) == Some(n * 60_000_000_000),
        time::time_expression(text::decimal(n) + "h"@) == Some(n * 3_600_000_000_000),
{
    clock::law_whole_seconds_are_read_back(n);
    let d = text::decimal(n);
    let v = n * 1_000_000_000;
    text::law_decimal_round_trip(n);
    lemma_scaled(d, v, 1, 1000);
    lemma_scaled(d, v, 1, 1);
    lemma_scaled(d, v, 60, 1);
    lemma_scaled(d, v, 3600, 1);
    lemma_unit(n, seq!['m', 's']);
    lemma_unit(n, seq!['s']);
    lemma_unit(n, seq!['m']);
    lemma_unit(n, seq!['h']);
    reveal_strlit("ms");
    reveal_strlit("s");
    reveal_strlit("m");
    reveal_strlit("h");
    assert("ms"@ =~= seq!['m', 's']);
    assert("s"@ =~= seq!['s']);
    assert("m"@ =~= seq!['m']);
    assert("h"@ =~= seq!['h']);
    lemma_other_suffixes(d);
    assert(v * 1 / 1000 == n * 1_000_000);
}

proof fn lemma_scaled(d: Seq<char>, v: int, mul: int, div: int)
    requires
        text::is_digits(d),
        clock::decimal_ns(d) == Some(v),
    ensures
        time::scaled(d, mul, div) == Some(v * mul / div),
{
    assert('0' <= d[0] && d[0] <= '9');
    assert('0' <= d[d.len() - 1] && d[d.len() - 1] <= '9');
    assert(text::trimmed(d) == d);
}

/// Each unit is told from the others.
proof fn lemma_other_suffixes(d: Seq<char>)
    requires
        text::is_digits(d),
    ensures
        text::before_suffix(d + seq!['s'], seq!['m', 's']) is None,
        text::before_suffix(d + seq!['m'], seq!['m', 's']) is None,
        text::before_suffix(d + seq!['m'], seq!['s']) is None,
        text::before_suffix(d + seq!['h'], seq!['m', 's']) is None,
        text::before_suffix(d + seq!['h'], seq!['s']) is None,
        text::before_suffix(d + seq!['h'], seq!['m']) is None,
{
    let (x, y, z) = (d + seq!['s'], d + seq!['m'], d + seq!['h']);
    let (ms, s, m) = (seq!['m', 's'], seq!['s'], seq!['m']);
    if ms.is_suffix_of(x) {
        assert(x.subrange(x.len() - 2, x.len() as int)[0] == d[d.len() - 1]);
        assert('0' <= d[d.len() - 1] && d[d.len() - 1] <= '9');
    }
    assert(y.last() == 'm' && z.last() == 'h');
    if ms.is_suffix_of(y) {
        lemma_suffix_char(ms, y);
    }
    if s.is_suffix_of(y) {
        lemma_suffix_char(s, y);
    }
    if ms.is_suffix_of(z) {
        lemma_suffix_char(ms, z);
    }
    if s.is_suffix_of(z) {
        lemma_suffix_char(s, z);
    }
    if m.is_suffix_of(z) {
        lemma_suffix_char(m, z);
    }
}

} // verus!
