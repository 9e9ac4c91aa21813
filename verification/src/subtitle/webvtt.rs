//! WebVTT.

use vstd::prelude::*;

use super::cue;
use super::cue::{Cue, CueView, OFFSET_LIMIT};
use super::time;
use super::time::TIME_LIMIT;
use crate::text;

verus! {

/// The blocks between empty lines that hold anything.
pub open spec fn blocks(s: Seq<char>) -> Seq<Seq<char>> {
    kept_blocks(
        text::parts(text::replaced(text::replaced(s, "\r\n"@, "\n"@), "\r"@, "\n"@), "\n\n"@),
    )
}

/// The blocks that hold anything but white space.
pub open spec fn kept_blocks(p: Seq<Seq<char>>) -> Seq<Seq<char>>
    decreases p.len(),
{
    if p.len() == 0 {
        p
    } else if text::trimmed(p.last()).len() == 0 {
        kept_blocks(p.drop_last())
    } else {
        kept_blocks(p.drop_last()).push(p.last())
    }
}

/// The lines of a block without the white space at their ends.
pub open spec fn block_lines(block: Seq<char>) -> Seq<Seq<char>> {
    text::lines_of(block).map_values(|l: Seq<char>| text::trim_end(l))
}

/// The first line from `i` on that states times.
pub open spec fn timing_line(lines: Seq<Seq<char>>, i: int) -> Option<int>
    decreases lines.len() - i,
{
    if i < 0 || i >= lines.len() {
        None
    } else if text::contains(lines[i], "-->"@) {
        Some(i)
    } else {
        timing_line(lines, i + 1)
    }
}

/// The start, the end and the settings that a line states.
pub open spec fn timing_of(line: Seq<char>) -> Option<(int, int, Seq<char>)> {
    match text::find_at(line, "-->"@, 0) {
        None => None,
        Some(i) => {
            let w = text::words(line.skip(i + 3));
            let settings = if w.len() <= 1 {
                Seq::empty()
            } else {
                seq![' '] + text::joined(w.skip(1), seq![' '])
            };
            if w.len() == 0 {
                None
            } else {
                match (
                    time::vtt_time(text::trimmed(line.take(i))),
                    time::vtt_time(text::trimmed(w[0])),
                ) {
                    (Some(a), Some(b)) => Some((a, b, settings)),
                    _ => None,
                }
            }
        },
    }
}

/// Whether a block is a header, a note or a style.
pub open spec fn is_no_cue(first: Seq<char>) -> bool {
    let f = text::trimmed(text::skip_char(first, '\u{feff}'));
    "WEBVTT"@.is_prefix_of(f) || "NOTE"@.is_prefix_of(f) || "STYLE"@.is_prefix_of(f)
        || "REGION"@.is_prefix_of(f)
}

/// The cue that a block states.
pub open spec fn cue_of(block: Seq<char>) -> Option<CueView> {
    let lines = block_lines(block);
    if lines.len() == 0 || is_no_cue(lines[0]) {
        None
    } else {
        match timing_line(lines, 0) {
            None => None,
            Some(k) => match timing_of(lines[k]) {
                None => None,
                Some((start, end, settings)) => {
                    let t = text::trimmed(
                        text::joined(lines.subrange(k + 1, lines.len() as int), seq!['\n']),
                    );
                    if t.len() == 0 {
                        None
                    } else {
                        Some(
                            CueView {
                                start,
                                end,
                                text: t,
                                settings,
                                id: if k > 0 {
                                    Some(text::joined(lines.subrange(0, k), seq!['\n']))
                                } else {
                                    None
                                },
                            },
                        )
                    }
                },
            },
        }
    }
}

/// The cues of blocks.
pub open spec fn cues_of(blocks: Seq<Seq<char>>) -> Seq<CueView>
    decreases blocks.len(),
{
    if blocks.len() == 0 {
        Seq::empty()
    } else {
        match cue_of(blocks.last()) {
            Some(c) => cues_of(blocks.drop_last()).push(c),
            None => cues_of(blocks.drop_last()),
        }
    }
}

/// The body of a WebVTT text in a fragment that starts at `offset`.
pub open spec fn vtt_body(s: Seq<char>, offset: int, default_ns: int) -> Seq<char> {
    cue::body_of(cues_of(blocks(s)), offset, default_ns)
}

/// The blocks between empty lines that hold anything.
pub fn split_blocks(s: &str) -> (r: Vec<Vec<char>>)
    ensures
        text::char_views(r@) == blocks(s@),
{
    proof {
        reveal_strlit("\r\n");
        reveal_strlit("\r");
        reveal_strlit("\n\n");
    }
    let newline: Vec<char> = text::to_chars("\n");
    let a: Vec<char> = text::replace(text::to_chars(s).as_slice(), "\r\n", newline.as_slice());
    let b: Vec<char> = text::replace(a.as_slice(), "\r", newline.as_slice());
    let all: Vec<Vec<char>> = text::split_text(b.as_slice(), "\n\n");
    let ghost p = text::char_views(all@);
    let mut out: Vec<Vec<char>> = Vec::new();
    assert(text::char_views(out@) =~= kept_blocks(p.take(0)));
    for i in 0..all.len()
        invariant
            text::char_views(all@) == p,
            text::char_views(out@) == kept_blocks(p.take(i as int)),
    {
        let ghost part = p.take(i as int + 1);
        assert(part.drop_last() =~= p.take(i as int));
        assert(part.last() == all@[i as int]@);
        if text::trim(all[i].as_slice()).len() > 0 {
            let ghost before = out@;
            let block: Vec<char> = text::copy(all[i].as_slice());
            out.push(block);
            assert(text::char_views(out@) =~= text::char_views(before).push(block@));
        }
    }
    assert(p.take(all@.len() as int) =~= p);
    out
}

fn trimmed_lines(block: &[char]) -> (r: Vec<Vec<char>>)
    ensures
        text::char_views(r@) == block_lines(block@),
{
    let raw: Vec<Vec<char>> = text::split_lines(text::from_chars(block).as_str());
    let ghost want = block_lines(block@);
    let mut out: Vec<Vec<char>> = Vec::new();
    assert(text::char_views(out@) =~= want.take(0));
    for i in 0..raw.len()
        invariant
            want == block_lines(block@),
            text::char_views(raw@) == text::lines_of(block@),
            text::char_views(out@) == want.take(i as int),
    {
        let ghost before = out@;
        assert(text::lines_of(block@)[i as int] == raw@[i as int]@);
        let l: Vec<char> = text::trim_back(raw[i].as_slice());
        out.push(l);
        assert(text::char_views(out@) =~= text::char_views(before).push(l@));
        assert(want.take(i as int + 1) =~= want.take(i as int).push(l@));
    }
    assert(want.len() == raw@.len());
    assert(want.take(raw@.len() as int) =~= want);
    out
}

fn find_timing(lines: &[Vec<char>]) -> (r: Option<usize>)
    ensures
        match r {
            Some(k) => k < lines@.len() && timing_line(text::char_views(lines@), 0) == Some(
                k as int,
            ),
            None => timing_line(text::char_views(lines@), 0) is None,
        },
{
    let n: usize = lines.len();
    let ghost all = text::char_views(lines@);
    let mut i: usize = 0;
    while i < n
        invariant
            n == lines@.len(),
            all == text::char_views(lines@),
            timing_line(all, 0) == timing_line(all, i as int),
        decreases n - i,
    {
        assert(all[i as int] == lines@[i as int]@);
        if text::has(lines[i].as_slice(), "-->") {
            return Some(i);
        }
        i = i + 1;
    }
    None
}

/// The start, the end and the settings that a line states.
pub fn parse_vtt_timing_line(line: &[char]) -> (r: Option<(i128, i128, String)>)
    ensures
        match r {
            Some((a, b, s)) => timing_of(line@) == Some((a as int, b as int, s@)) && -TIME_LIMIT
                < a < TIME_LIMIT && -TIME_LIMIT < b < TIME_LIMIT,
            None => timing_of(line@) is None,
        },
{
    proof {
        reveal_strlit("-->");
        assert("-->"@.len() == 3);
    }
    let n: usize = line.len();
    let i: usize = match text::find(line, "-->", 0) {
        Some(i) => i,
        None => return None,
    };
    let head: &[char] = vstd::slice::slice_subrange(line, 0, i);
    let rest: &[char] = vstd::slice::slice_subrange(line, i + 3, n);
    assert(head@ =~= line@.take(i as int));
    assert(rest@ =~= line@.skip(i + 3));
    let words: Vec<Vec<char>> = text::split_words(rest);
    let ghost w = text::words(rest@);
    assert(w.len() == words@.len());
    let m: usize = words.len();
    if m == 0 {
        return None;
    }
    assert(w[0] == words@[0]@);
    let mut settings: String = String::new();
    if m > 1 {
        settings.push(' ');
        let more: Vec<char> = text::join(words.as_slice(), 1, m, ' ');
        assert(w.subrange(1, m as int) =~= w.skip(1));
        text::push_str(&mut settings, text::from_chars(more.as_slice()).as_str());
        assert(settings@ =~= seq![' '] + more@);
    }
    let a: i128 = match time::parse_vtt_time(text::trim(head).as_slice()) {
        Some(a) => a,
        None => return None,
    };
    match time::parse_vtt_time(text::trim(words[0].as_slice()).as_slice()) {
        Some(b) => Some((a, b, settings)),
        None => None,
    }
}

fn parse_block(block: &[char]) -> (r: Option<Cue>)
    ensures
        match r {
            Some(c) => cue_of(block@) == Some(c@) && -TIME_LIMIT < c.start < TIME_LIMIT
                && -TIME_LIMIT < c.end < TIME_LIMIT,
            None => cue_of(block@) is None,
        },
{
    let lines: Vec<Vec<char>> = trimmed_lines(block);
    let ghost all = block_lines(block@);
    let n: usize = lines.len();
    assert(all.len() == n);
    if n == 0 {
        return None;
    }
    assert(all[0] == lines@[0]@);
    let first: Vec<char> = text::trim(
        text::skip_leading(lines[0].as_slice(), '\u{feff}').as_slice(),
    );
    let f: &[char] = first.as_slice();
    if text::starts_with(f, "WEBVTT") || text::starts_with(f, "NOTE") || text::starts_with(
        f,
        "STYLE",
    ) || text::starts_with(f, "REGION") {
        return None;
    }
    let k: usize = match find_timing(lines.as_slice()) {
        Some(k) => k,
        None => return None,
    };
    assert(all[k as int] == lines@[k as int]@);
    let (start, end, settings): (i128, i128, String) = match parse_vtt_timing_line(
        lines[k].as_slice(),
    ) {
        Some(t) => t,
        None => return None,
    };
    let rest: Vec<char> = text::join(lines.as_slice(), k + 1, n, '\n');
    let t: Vec<char> = text::trim(rest.as_slice());
    if t.len() == 0 {
        return None;
    }
    let id: Option<String> = if k > 0 {
        Some(text::from_chars(text::join(lines.as_slice(), 0, k, '\n').as_slice()))
    } else {
        None
    };
    Some(Cue { start, end, text: text::from_chars(t.as_slice()), settings, id })
}

/// The body of a WebVTT text in a fragment that starts at `offset`.
pub fn webvtt_to_body(s: &str, offset: i128, default_ns: u64) -> (r: String)
    requires
        -OFFSET_LIMIT < offset < OFFSET_LIMIT,
    ensures
        r@ == vtt_body(s@, offset as int, default_ns as int),
{
    let all: Vec<Vec<char>> = split_blocks(s);
    let ghost p = blocks(s@);
    let mut cues: Vec<Cue> = Vec::new();
    assert(cue::cue_views(cues@) =~= cues_of(p.take(0)));
    for i in 0..all.len()
        invariant
            text::char_views(all@) == p,
            cue::cue_views(cues@) == cues_of(p.take(i as int)),
            cue::in_range(cue::cue_views(cues@)),
    {
        let ghost part = p.take(i as int + 1);
        assert(part.drop_last() =~= p.take(i as int));
        assert(part.last() == all@[i as int]@);
        if let Some(c) = parse_block(all[i].as_slice()) {
            let ghost before = cue::cue_views(cues@);
            cues.push(c);
            assert(cue::cue_views(cues@) =~= before.push(c@));
        }
    }
    assert(p.take(all@.len() as int) =~= p);
    cue::normalize_and_format_cues(cues.as_slice(), offset, default_ns)
}

} // verus!
