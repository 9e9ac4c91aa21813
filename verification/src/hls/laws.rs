//! What the lines of a playlist come to.

use vstd::prelude::*;

use super::parser;
use super::parser::{HlsSegmentView, KeyView, ReadState};
use crate::text;

verus! {

/// Whether a line starts with `tag`, but for white space.
pub open spec fn has_tag(raw: Seq<char>, tag: Seq<char>) -> bool {
    tag.is_prefix_of(text::trimmed(raw))
}

/// Whether none of the lines from `a` to before `b` starts with `tag`.
pub open spec fn lack(lines: Seq<Seq<char>>, a: int, b: int, tag: Seq<char>) -> bool {
    forall|i: int| a <= i < b ==> !has_tag(#[trigger] lines[i], tag)
}

/// Whether a line is neither blank nor a tag or comment.
pub open spec fn is_address(raw: Seq<char>) -> bool {
    text::trimmed(raw).len() > 0 && text::trimmed(raw)[0] != '#'
}

/// What has been read after `n` lines.
pub open spec fn state(lines: Seq<Seq<char>>, n: int, url: Seq<char>) -> ReadState {
    ReadState::with_lines(lines, n, url)->Ok_0
}

/// The segments that have been read after `n` lines.
pub open spec fn segments(lines: Seq<Seq<char>>, n: int, url: Seq<char>) -> Seq<HlsSegmentView> {
    state(lines, n, url).media.segments
}

/// Whether the first `n` lines can be read, and are those of a media playlist.
pub open spec fn is_media(lines: Seq<Seq<char>>, n: int, url: Seq<char>) -> bool {
    &&& 0 <= n <= lines.len()
    &&& ReadState::with_lines(lines, n, url) is Ok
    &&& lack(lines, 0, n, "#EXT-X-STREAM-INF:"@)
}

proof fn lemma_prefix_char(p: Seq<char>, s: Seq<char>, i: int)
    requires
        p.is_prefix_of(s),
        0 <= i < p.len(),
    ensures
        i < s.len(),
        s[i] == p[i],
{
    assert(s.subrange(0, p.len() as int)[i] == s[i]);
}

/// No tag starts like another, except where its name goes on.
proof fn lemma_tags_differ(s: Seq<char>)
    ensures
        "#EXT-X-STREAM-INF:"@.is_prefix_of(s) ==> s.len() > 7 && s[0] == '#' && s[4] == '-' && s[7]
            == 'S',
        "#EXT-X-MEDIA:"@.is_prefix_of(s) ==> s.len() > 12 && s[0] == '#' && s[4] == '-' && s[7]
            == 'M' && s[8] == 'E' && s[12] == ':',
        "#EXT-X-TARGETDURATION:"@.is_prefix_of(s) ==> s.len() > 7 && s[0] == '#' && s[4] == '-'
            && s[7] == 'T',
        "#EXT-X-MEDIA-SEQUENCE:"@.is_prefix_of(s) ==> s.len() > 12 && s[0] == '#' && s[4] == '-'
            && s[7] == 'M' && s[8] == 'E' && s[12] == '-',
        "#EXT-X-ENDLIST"@.is_prefix_of(s) ==> s.len() > 7 && s[0] == '#' && s[4] == '-' && s[7]
            == 'E',
        "#EXT-X-DISCONTINUITY"@.is_prefix_of(s) ==> s.len() > 7 && s[0] == '#' && s[4] == '-'
            && s[7] == 'D',
        "#EXT-X-MAP:"@.is_prefix_of(s) ==> s.len() > 8 && s[0] == '#' && s[4] == '-' && s[7] == 'M'
            && s[8] == 'A',
        "#EXT-X-KEY:"@.is_prefix_of(s) ==> s.len() > 7 && s[0] == '#' && s[4] == '-' && s[7] == 'K',
        "#EXTINF:"@.is_prefix_of(s) ==> s.len() > 4 && s[0] == '#' && s[4] == 'I',
{
    reveal_strlit("#EXT-X-STREAM-INF:");
    reveal_strlit("#EXT-X-MEDIA:");
    reveal_strlit("#EXT-X-TARGETDURATION:");
    reveal_strlit("#EXT-X-MEDIA-SEQUENCE:");
    reveal_strlit("#EXT-X-ENDLIST");
    reveal_strlit("#EXT-X-DISCONTINUITY");
    reveal_strlit("#EXT-X-MAP:");
    reveal_strlit("#EXT-X-KEY:");
    reveal_strlit("#EXTINF:");
    let tags = seq![
        "#EXT-X-STREAM-INF:"@,
        "#EXT-X-MEDIA:"@,
        "#EXT-X-TARGETDURATION:"@,
        "#EXT-X-MEDIA-SEQUENCE:"@,
        "#EXT-X-ENDLIST"@,
        "#EXT-X-DISCONTINUITY"@,
        "#EXT-X-MAP:"@,
        "#EXT-X-KEY:"@,
        "#EXTINF:"@,
    ];
    assert forall|k: int, i: int|
        #![trigger tags[k][i]]
        0 <= k < 9 && 0 <= i < tags[k].len() && tags[k].is_prefix_of(s) implies i < s.len() && s[i]
        == tags[k][i] by {
        lemma_prefix_char(tags[k], s, i);
    }
    assert(tags[0][0] == '#' && tags[0][4] == '-' && tags[0][7] == 'S');
    assert(tags[1][0] == '#' && tags[1][4] == '-' && tags[1][7] == 'M' && tags[1][8] == 'E'
        && tags[1][12] == ':');
    assert(tags[2][0] == '#' && tags[2][4] == '-' && tags[2][7] == 'T');
    assert(tags[3][0] == '#' && tags[3][4] == '-' && tags[3][7] == 'M' && tags[3][8] == 'E'
        && tags[3][12] == '-');
    assert(tags[4][0] == '#' && tags[4][4] == '-' && tags[4][7] == 'E');
    assert(tags[5][0] == '#' && tags[5][4] == '-' && tags[5][7] == 'D');
    assert(tags[6][0] == '#' && tags[6][4] == '-' && tags[6][7] == 'M' && tags[6][8] == 'A');
    assert(tags[7][0] == '#' && tags[7][4] == '-' && tags[7][7] == 'K');
    assert(tags[8][0] == '#' && tags[8][4] == 'I');
}

proof fn lemma_behind(tag: Seq<char>, rest: Seq<char>)
    ensures
        tag.is_prefix_of(tag + rest),
        text::behind(tag + rest, tag) == Some(rest),
{
    assert((tag + rest).subrange(0, tag.len() as int) =~= tag);
    assert((tag + rest).skip(tag.len() as int) =~= rest);
}

/// One line of a media playlist.
proof fn lemma_step(lines: Seq<Seq<char>>, n: int, url: Seq<char>)
    requires
        0 < n,
        is_media(lines, n, url),
    ensures
        is_media(lines, n - 1, url),
        state(lines, n - 1, url).pending is None,
        state(lines, n, url).pending is None,
        state(lines, n - 1, url).with_line(lines[n - 1], url) == Ok::<_, parser::HlsErrorView>(
            state(lines, n, url),
        ),
        ({
            let raw = lines[n - 1];
            let line = text::trimmed(raw);
            let s = state(lines, n - 1, url);
            let t = state(lines, n, url);
            &&& !has_tag(raw, "#EXT-X-KEY:"@) ==> t.key == s.key
            &&& has_tag(raw, "#EXT-X-KEY:"@) ==> parser::key_of(line.skip(11), url) == Ok::<
                _,
                parser::HlsErrorView,
            >(t.key)
            &&& has_tag(raw, "#EXTINF:"@) ==> t.extinf == Some(parser::extinf_ns(line.skip(8)))
            &&& is_address(raw) ==> t.extinf is None
            &&& !has_tag(raw, "#EXTINF:"@) && !is_address(raw) ==> t.extinf == s.extinf
            &&& has_tag(raw, "#EXT-X-DISCONTINUITY"@) ==> t.discontinuity
            &&& !has_tag(raw, "#EXT-X-DISCONTINUITY"@) && !(is_address(raw) && s.extinf is Some)
                ==> t.discontinuity == s.discontinuity
            &&& is_address(raw) && s.extinf is Some ==> {
                &&& !t.discontinuity
                &&& t.media.segments.len() == s.media.segments.len() + 1
                &&& t.media.segments.drop_last() =~= s.media.segments
                &&& t.media.segments.last().sequence == s.next_sequence
                &&& parser::resolved(url, line) == Ok::<_, parser::HlsErrorView>(
                    t.media.segments.last().uri,
                )
                &&& t.media.segments.last().duration_ns == s.extinf->0
                &&& t.media.segments.last().key == s.key
                &&& t.media.segments.last().discontinuity == s.discontinuity
                &&& t.next_sequence as int == (s.next_sequence + 1) % 0x1_0000_0000_0000_0000
            }
            &&& !(is_address(raw) && s.extinf is Some) ==> t.media.segments == s.media.segments
            &&& has_tag(raw, "#EXT-X-MEDIA-SEQUENCE:"@) ==> t.next_sequence
                == t.media.media_sequence && t.next_sequence == parser::number_or_zero(
                Some(text::trimmed(line.skip(22))),
            )
            &&& !has_tag(raw, "#EXT-X-MEDIA-SEQUENCE:"@) ==> t.media.media_sequence
                == s.media.media_sequence
            &&& !has_tag(raw, "#EXT-X-MEDIA-SEQUENCE:"@) && !(is_address(raw) && s.extinf is Some)
                ==> t.next_sequence == s.next_sequence
            &&& t.media.end_list == (s.media.end_list || has_tag(raw, "#EXT-X-ENDLIST"@))
            &&& t.media.has_map == (s.media.has_map || has_tag(raw, "#EXT-X-MAP:"@))
            &&& !has_tag(raw, "#EXT-X-MAP:"@) ==> t.media.map_uri == s.media.map_uri
            &&& !has_tag(raw, "#EXT-X-TARGETDURATION:"@) ==> t.media.target_duration
                == s.media.target_duration
            &&& t.media.uri == s.media.uri
            &&& !t.is_master && !s.is_master
        }),
    decreases n,
{
    assert(ReadState::with_lines(lines, n - 1, url) is Ok);
    if n > 1 {
        lemma_step(lines, n - 1, url);
    }
    let raw = lines[n - 1];
    let line = text::trimmed(raw);
    let s = state(lines, n - 1, url);
    let t = state(lines, n, url);
    assert(!has_tag(raw, "#EXT-X-STREAM-INF:"@));
    lemma_tags_differ(line);
    reveal_strlit("#EXT-X-MEDIA-SEQUENCE:");
    reveal_strlit("#EXT-X-KEY:");
    reveal_strlit("#EXTINF:");
    reveal_strlit("#EXT-X-ENDLIST");
    reveal_strlit("#EXT-X-DISCONTINUITY");
    reveal_strlit("#EXT-X-MAP:");
    reveal_strlit("#EXT-X-TARGETDURATION:");
}

/// Reading on only adds segments: those that have been read stay as they are.
pub proof fn law_read_segments_stay(lines: Seq<Seq<char>>, m: int, n: int, url: Seq<char>)
    requires
        is_media(lines, n, url),
        0 <= m <= n,
    ensures
        is_media(lines, m, url),
        segments(lines, m, url).is_prefix_of(segments(lines, n, url)),
    decreases n - m,
{
    if m < n {
        lemma_step(lines, n, url);
        law_read_segments_stay(lines, m, n - 1, url);
        let a = segments(lines, m, url);
        let b = segments(lines, n - 1, url);
        let c = segments(lines, n, url);
        if b != c {
            assert(c.drop_last() =~= b);
        }
        assert(a =~= c.subrange(0, a.len() as int)) by {
            assert(a =~= b.subrange(0, a.len() as int));
            assert forall|i: int| 0 <= i < a.len() implies a[i] == c[i] by {
                assert(a[i] == b[i]);
                assert(b[i] == c[i]) by {
                    if b != c {
                        assert(c.drop_last()[i] == c[i]);
                    }
                }
            }
        }
    }
}

/// Two segments with no `#EXT-X-KEY` line between them have the same key: the one that is in force
/// where the first of them is read.
pub proof fn law_key_stays_in_force(
    lines: Seq<Seq<char>>,
    m: int,
    n: int,
    url: Seq<char>,
    i: int,
    j: int,
)
    requires
        is_media(lines, n, url),
        0 <= m <= n,
        lack(lines, m, n, "#EXT-X-KEY:"@),
        segments(lines, m, url).len() <= i < segments(lines, n, url).len(),
        segments(lines, m, url).len() <= j < segments(lines, n, url).len(),
    ensures
        segments(lines, n, url)[i].key == segments(lines, n, url)[j].key,
        segments(lines, n, url)[i].key == state(lines, m, url).key,
        state(lines, n, url).key == state(lines, m, url).key,
    decreases n - m,
{
    lemma_key_in_force(lines, m, n, url);
}

proof fn lemma_key_in_force(lines: Seq<Seq<char>>, m: int, n: int, url: Seq<char>)
    requires
        is_media(lines, n, url),
        0 <= m <= n,
        lack(lines, m, n, "#EXT-X-KEY:"@),
    ensures
        is_media(lines, m, url),
        state(lines, n, url).key == state(lines, m, url).key,
        segments(lines, m, url).len() <= segments(lines, n, url).len(),
        forall|i: int|
            segments(lines, m, url).len() <= i < segments(lines, n, url).len() ==> (
            #[trigger] segments(lines, n, url)[i]).key == state(lines, m, url).key,
    decreases n - m,
{
    if m < n {
        lemma_step(lines, n, url);
        lemma_key_in_force(lines, m, n - 1, url);
        let b = segments(lines, n - 1, url);
        let c = segments(lines, n, url);
        assert forall|i: int| segments(lines, m, url).len() <= i < c.len() implies (
        #[trigger] c[i]).key == state(lines, m, url).key by {
            if i < b.len() {
                assert(b[i].key == state(lines, m, url).key);
                if b != c {
                    assert(c.drop_last()[i] == c[i]);
                }
            } else {
                assert(c[i] == c.last());
            }
        }
    }
}

/// The key of a segment is the one that the last `#EXT-X-KEY` line before it states.
pub proof fn law_last_key_line_holds(
    lines: Seq<Seq<char>>,
    k: int,
    n: int,
    url: Seq<char>,
    rest: Seq<char>,
    i: int,
)
    requires
        is_media(lines, n, url),
        0 <= k < n,
        text::trimmed(lines[k]) == "#EXT-X-KEY:"@ + rest,
        lack(lines, k + 1, n, "#EXT-X-KEY:"@),
        segments(lines, k, url).len() <= i < segments(lines, n, url).len(),
    ensures
        parser::key_of(rest, url) == Ok::<_, parser::HlsErrorView>(
            segments(lines, n, url)[i].key,
        ),
{
    lemma_key_in_force(lines, k + 1, n, url);
    lemma_step(lines, k + 1, url);
    lemma_behind("#EXT-X-KEY:"@, rest);
    reveal_strlit("#EXT-X-KEY:");
    lemma_tags_differ(text::trimmed(lines[k]));
}

/// Segments before the first `#EXT-X-KEY` line are clear.
pub proof fn law_segments_without_key_line_are_clear(
    lines: Seq<Seq<char>>,
    n: int,
    url: Seq<char>,
    i: int,
)
    requires
        is_media(lines, n, url),
        lack(lines, 0, n, "#EXT-X-KEY:"@),
        0 <= i < segments(lines, n, url).len(),
    ensures
        segments(lines, n, url)[i].key == KeyView::Clear,
{
    lemma_key_in_force(lines, 0, n, url);
}

/// An address behind an `#EXTINF` line, with nothing but blank lines and other tags between, is a
/// segment: its own address is resolved against that of the playlist, its duration is the stated
/// one.
pub proof fn law_address_behind_extinf_is_segment(
    lines: Seq<Seq<char>>,
    x: int,
    u: int,
    url: Seq<char>,
    rest: Seq<char>,
)
    requires
        is_media(lines, u + 1, url),
        0 <= x < u,
        text::trimmed(lines[x]) == "#EXTINF:"@ + rest,
        lack(lines, x + 1, u, "#EXTINF:"@),
        forall|i: int| x < i < u ==> !is_address(#[trigger] lines[i]),
        is_address(lines[u]),
    ensures
        ({
            let s = segments(lines, u + 1, url);
            &&& s.drop_last() == segments(lines, x, url)
            &&& s.len() == segments(lines, x, url).len() + 1
            &&& parser::resolved(url, text::trimmed(lines[u])) == Ok::<_, parser::HlsErrorView>(
                s.last().uri,
            )
            &&& s.last().duration_ns == parser::extinf_ns(rest)
        }),
{
    lemma_step(lines, u + 1, url);
    lemma_extinf_waits(lines, x + 1, u, url);
    lemma_step(lines, x + 1, url);
    lemma_behind("#EXTINF:"@, rest);
    reveal_strlit("#EXTINF:");
    lemma_tags_differ(text::trimmed(lines[x]));
}

proof fn lemma_extinf_waits(lines: Seq<Seq<char>>, m: int, n: int, url: Seq<char>)
    requires
        is_media(lines, n, url),
        0 <= m <= n,
        lack(lines, m, n, "#EXTINF:"@),
        forall|i: int| m <= i < n ==> !is_address(#[trigger] lines[i]),
    ensures
        is_media(lines, m, url),
        state(lines, n, url).extinf == state(lines, m, url).extinf,
        segments(lines, n, url) == segments(lines, m, url),
    decreases n - m,
{
    if m < n {
        lemma_step(lines, n, url);
        lemma_extinf_waits(lines, m, n - 1, url);
    }
}

/// An address with no `#EXTINF` line since the address before it is no segment.
pub proof fn law_address_without_extinf_is_passed_over(
    lines: Seq<Seq<char>>,
    m: int,
    n: int,
    url: Seq<char>,
)
    requires
        is_media(lines, n, url),
        0 <= m <= n,
        m == 0 || is_address(lines[m - 1]),
        lack(lines, m, n, "#EXTINF:"@),
    ensures
        segments(lines, n, url) == segments(lines, m, url),
{
    lemma_nothing_waits(lines, m, n, url);
}

proof fn lemma_nothing_waits(lines: Seq<Seq<char>>, m: int, n: int, url: Seq<char>)
    requires
        is_media(lines, n, url),
        0 <= m <= n,
        m == 0 || is_address(lines[m - 1]),
        lack(lines, m, n, "#EXTINF:"@),
    ensures
        is_media(lines, m, url),
        state(lines, n, url).extinf is None,
        segments(lines, n, url) == segments(lines, m, url),
    decreases n - m,
{
    if m < n {
        lemma_step(lines, n, url);
        lemma_nothing_waits(lines, m, n - 1, url);
    } else if n > 0 {
        lemma_step(lines, n, url);
    }
}

/// A segment is marked as a break exactly where a `#EXT-X-DISCONTINUITY` line stands between the
/// segment before it and its own address.
pub proof fn law_breaks_are_marked(lines: Seq<Seq<char>>, v: int, u: int, url: Seq<char>)
    requires
        is_media(lines, u + 1, url),
        0 <= v <= u,
        segments(lines, v, url).len() == segments(lines, u, url).len(),
        segments(lines, u, url).len() < segments(lines, u + 1, url).len(),
        v == 0 || segments(lines, v - 1, url).len() < segments(lines, v, url).len(),
    ensures
        segments(lines, u + 1, url).last().discontinuity <==> !lack(
            lines,
            v,
            u,
            "#EXT-X-DISCONTINUITY"@,
        ),
{
    lemma_step(lines, u + 1, url);
    lemma_breaks(lines, v, u, url);
}

proof fn lemma_breaks(lines: Seq<Seq<char>>, v: int, u: int, url: Seq<char>)
    requires
        is_media(lines, u, url),
        0 <= v <= u,
        segments(lines, v, url).len() == segments(lines, u, url).len(),
        v == 0 || segments(lines, v - 1, url).len() < segments(lines, v, url).len(),
    ensures
        state(lines, u, url).discontinuity <==> !lack(lines, v, u, "#EXT-X-DISCONTINUITY"@),
    decreases u - v,
{
    if v < u {
        lemma_step(lines, u, url);
        law_read_segments_stay(lines, v, u - 1, url);
        lemma_breaks(lines, v, u - 1, url);
        assert(lack(lines, v, u, "#EXT-X-DISCONTINUITY"@) <==> lack(
            lines,
            v,
            u - 1,
            "#EXT-X-DISCONTINUITY"@,
        ) && !has_tag(lines[u - 1], "#EXT-X-DISCONTINUITY"@));
    } else if v > 0 {
        lemma_step(lines, v, url);
        lemma_tags_differ(text::trimmed(lines[v - 1]));
    }
}

/// Segments are numbered one after the other from the number that the `#EXT-X-MEDIA-SEQUENCE` line
/// before them states.
pub proof fn law_numbers_start_at_media_sequence(
    lines: Seq<Seq<char>>,
    k: int,
    n: int,
    url: Seq<char>,
    rest: Seq<char>,
    first: int,
    i: int,
)
    requires
        is_media(lines, n, url),
        0 <= k < n,
        text::trimmed(lines[k]) == "#EXT-X-MEDIA-SEQUENCE:"@ + rest,
        text::trimmed(rest) == text::decimal(first),
        0 <= first <= u64::MAX,
        lack(lines, k + 1, n, "#EXT-X-MEDIA-SEQUENCE:"@),
        segments(lines, k, url).len() <= i < segments(lines, n, url).len(),
    ensures
        segments(lines, n, url)[i].sequence as int == (first + i - segments(lines, k, url).len())
            % 0x1_0000_0000_0000_0000,
        state(lines, n, url).media.media_sequence == first,
{
    lemma_numbers(lines, k + 1, n, url);
    lemma_step(lines, k + 1, url);
    lemma_behind("#EXT-X-MEDIA-SEQUENCE:"@, rest);
    reveal_strlit("#EXT-X-MEDIA-SEQUENCE:");
    lemma_tags_differ(text::trimmed(lines[k]));
    text::law_decimal_round_trip(first);
}

/// Without such a line segments are numbered from 0 on.
pub proof fn law_numbers_start_at_zero(lines: Seq<Seq<char>>, n: int, url: Seq<char>, i: int)
    requires
        is_media(lines, n, url),
        lack(lines, 0, n, "#EXT-X-MEDIA-SEQUENCE:"@),
        0 <= i < segments(lines, n, url).len() <= u64::MAX,
    ensures
        segments(lines, n, url)[i].sequence == i,
        state(lines, n, url).media.media_sequence == 0,
{
    lemma_numbers(lines, 0, n, url);
}

proof fn lemma_numbers(lines: Seq<Seq<char>>, m: int, n: int, url: Seq<char>)
    requires
        is_media(lines, n, url),
        0 <= m <= n,
        lack(lines, m, n, "#EXT-X-MEDIA-SEQUENCE:"@),
    ensures
        is_media(lines, m, url),
        segments(lines, m, url).len() <= segments(lines, n, url).len(),
        state(lines, n, url).media.media_sequence == state(lines, m, url).media.media_sequence,
        state(lines, n, url).next_sequence as int == (state(lines, m, url).next_sequence + segments(
            lines,
            n,
            url,
        ).len() - segments(lines, m, url).len()) % 0x1_0000_0000_0000_0000,
        forall|i: int|
            segments(lines, m, url).len() <= i < segments(lines, n, url).len() ==> (
            #[trigger] segments(lines, n, url)[i]).sequence as int == (state(
                lines,
                m,
                url,
            ).next_sequence + i - segments(lines, m, url).len()) % 0x1_0000_0000_0000_0000,
    decreases n - m,
{
    if m < n {
        lemma_step(lines, n, url);
        lemma_numbers(lines, m, n - 1, url);
        let b = segments(lines, n - 1, url);
        let c = segments(lines, n, url);
        assert forall|i: int| segments(lines, m, url).len() <= i < c.len() implies (
        #[trigger] c[i]).sequence as int == (state(lines, m, url).next_sequence + i - segments(
            lines,
            m,
            url,
        ).len()) % 0x1_0000_0000_0000_0000 by {
            if i < b.len() {
                assert(b[i].sequence as int == (state(lines, m, url).next_sequence + i - segments(
                    lines,
                    m,
                    url,
                ).len()) % 0x1_0000_0000_0000_0000);
                if b != c {
                    assert(c.drop_last()[i] == c[i]);
                }
            } else {
                assert(c[i] == c.last());
            }
        }
    }
}

/// A playlist has ended exactly where it says so, and has a map exactly where it states one.
pub proof fn law_end_and_map_are_stated(lines: Seq<Seq<char>>, n: int, url: Seq<char>)
    requires
        is_media(lines, n, url),
    ensures
        state(lines, n, url).media.end_list <==> !lack(lines, 0, n, "#EXT-X-ENDLIST"@),
        state(lines, n, url).media.has_map <==> !lack(lines, 0, n, "#EXT-X-MAP:"@),
        state(lines, n, url).media.uri == url,
        lack(lines, 0, n, "#EXT-X-MAP:"@) ==> state(lines, n, url).media.map_uri is None,
        lack(lines, 0, n, "#EXT-X-TARGETDURATION:"@) ==> state(lines, n, url).media.target_duration
            == 6,
        state(lines, n, url).playlist() == parser::PlaylistView::Media(state(lines, n, url).media),
    decreases n,
{
    if n > 0 {
        lemma_step(lines, n, url);
        law_end_and_map_are_stated(lines, n - 1, url);
        assert forall|tag: Seq<char>|
            #[trigger] lack(lines, 0, n, tag) <==> lack(lines, 0, n - 1, tag) && !has_tag(
                lines[n - 1],
                tag,
            ) by {}
    }
}

/// The target duration is the number that the last such line states.
pub proof fn law_target_duration_is_stated(
    lines: Seq<Seq<char>>,
    k: int,
    n: int,
    url: Seq<char>,
    rest: Seq<char>,
    seconds: int,
)
    requires
        is_media(lines, n, url),
        0 <= k < n,
        text::trimmed(lines[k]) == "#EXT-X-TARGETDURATION:"@ + rest,
        text::trimmed(rest) == text::decimal(seconds),
        0 <= seconds <= u64::MAX,
        lack(lines, k + 1, n, "#EXT-X-TARGETDURATION:"@),
    ensures
        state(lines, n, url).media.target_duration == seconds,
    decreases n - k,
{
    lemma_step(lines, n, url);
    if k + 1 < n {
        law_target_duration_is_stated(lines, k, n - 1, url, rest, seconds);
    } else {
        lemma_behind("#EXT-X-TARGETDURATION:"@, rest);
        lemma_tags_differ(text::trimmed(lines[k]));
        text::law_decimal_round_trip(seconds);
        reveal_strlit("#EXT-X-TARGETDURATION:");
    }
}

/// An attribute as a list writes it, with its value in quotes or without.
pub struct Written {
    pub name: Seq<char>,
    pub value: Seq<char>,
    pub in_quotes: bool,
}

impl Written {
    /// A name is trimmed upper case and holds nothing that divides. A value holds no quotes, and
    /// outside of quotes is trimmed and holds no comma.
    pub open spec fn wf(self) -> bool {
        &&& text::trimmed(self.name) == self.name
        &&& text::ascii_uppercase(self.name) == self.name
        &&& forall|i: int|
            0 <= i < self.name.len() ==> #[trigger] self.name[i] != '=' && self.name[i] != ','
                && self.name[i] != '"'
        &&& forall|i: int| 0 <= i < self.value.len() ==> #[trigger] self.value[i] != '"'
        &&& !self.in_quotes ==> text::trimmed(self.value) == self.value && forall|i: int|
            0 <= i < self.value.len() ==> #[trigger] self.value[i] != ','
    }

    pub open spec fn shown(self) -> Seq<char> {
        if self.in_quotes {
            self.name + seq!['=', '"'] + self.value + seq!['"']
        } else {
            self.name + seq!['='] + self.value
        }
    }
}

/// A list of attributes, divided by commas.
pub open spec fn list_text(a: Seq<Written>) -> Seq<char>
    decreases a.len(),
{
    if a.len() == 0 {
        Seq::empty()
    } else if a.len() == 1 {
        a[0].shown()
    } else {
        a[0].shown() + seq![','] + list_text(a.skip(1))
    }
}

/// The value of the last attribute of a name.
pub open spec fn last_value(a: Seq<Written>, name: Seq<char>) -> Option<Seq<char>>
    decreases a.len(),
{
    if a.len() == 0 {
        None
    } else if a.last().name == name {
        Some(a.last().value)
    } else {
        last_value(a.drop_last(), name)
    }
}

proof fn lemma_pieces_shift(s: Seq<char>, k: int, start: int, i: int, quoted: bool)
    requires
        0 <= k <= start <= i,
        k <= s.len(),
        start <= s.len(),
    ensures
        parser::pieces_from(s, start, i, quoted) == parser::pieces_from(
            s.skip(k),
            start - k,
            i - k,
            quoted,
        ),
    decreases s.len() - i,
{
    let r = s.skip(k);
    if i < s.len() {
        assert(r[i - k] == s[i]);
        if s[i] == '"' {
            lemma_pieces_shift(s, k, start, i + 1, !quoted);
        } else if s[i] == ',' && !quoted {
            lemma_pieces_shift(s, k, i + 1, i + 1, quoted);
            assert(r.subrange(start - k, i - k) =~= s.subrange(start, i));
        } else {
            lemma_pieces_shift(s, k, start, i + 1, quoted);
        }
    } else {
        assert(r.skip(start - k) =~= s.skip(start));
    }
}

proof fn lemma_pieces_run(s: Seq<char>, start: int, i: int, j: int, quoted: bool)
    requires
        0 <= i <= j <= s.len(),
        forall|k: int| i <= k < j ==> #[trigger] s[k] != '"' && (quoted || s[k] != ','),
    ensures
        parser::pieces_from(s, start, i, quoted) == parser::pieces_from(s, start, j, quoted),
    decreases j - i,
{
    if i < j {
        lemma_pieces_run(s, start, i + 1, j, quoted);
    }
}

/// The first attribute of a list is its first piece up to its end.
proof fn lemma_first_piece(w: Written, s: Seq<char>)
    requires
        w.wf(),
        w.shown().is_prefix_of(s),
    ensures
        parser::pieces_from(s, 0, 0, false) == parser::pieces_from(
            s,
            0,
            w.shown().len() as int,
            false,
        ),
{
    let h = w.shown();
    let n = w.name.len() as int;
    let v = w.value.len() as int;
    assert forall|i: int| 0 <= i < h.len() implies s[i] == h[i] by {
        lemma_prefix_char(h, s, i);
    }
    assert forall|i: int| 0 <= i < n implies s[i] == w.name[i] by {
        assert(h[i] == w.name[i]);
    }
    if w.in_quotes {
        assert(s[n] == '=' && s[n + 1] == '"') by {
            assert(h[n] == '=' && h[n + 1] == '"');
        }
        assert forall|i: int| 0 <= i < v implies s[n + 2 + i] == w.value[i] by {
            assert(h[n + 2 + i] == w.value[i]);
        }
        assert(s[n + 2 + v] == '"') by {
            assert(h[n + 2 + v] == '"');
        }
        lemma_pieces_run(s, 0, 0, n + 1, false);
        assert forall|k: int| n + 2 <= k < n + 2 + v implies #[trigger] s[k] != '"' by {
            assert(s[n + 2 + (k - n - 2)] == w.value[k - n - 2]);
        }
        lemma_pieces_run(s, 0, n + 2, n + 2 + v, true);
    } else {
        assert(s[n] == '=') by {
            assert(h[n] == '=');
        }
        assert forall|k: int| 0 <= k < n + 1 + v implies #[trigger] s[k] != '"' && s[k] != ',' by {
            if k > n {
                assert(h[k] == w.value[k - n - 1]);
            }
        }
        lemma_pieces_run(s, 0, 0, n + 1 + v, false);
    }
}

proof fn lemma_trimmed_when_tight(s: Seq<char>)
    requires
        s.len() > 0 ==> !text::white(s[0]) && !text::white(s.last()),
    ensures
        text::trimmed(s) == s,
{
}

proof fn lemma_written_piece(w: Written)
    requires
        w.wf(),
    ensures
        parser::attribute_of(w.shown()) == Some((w.name, w.value)),
{
    let h = w.shown();
    let n = w.name.len() as int;
    assert forall|j: int| 0 <= j < n implies #[trigger] h[j] != '=' by {
        assert(h[j] == w.name[j]);
    }
    assert(h[n] == '=');
    text::lemma_index_is(h, '=', 0, n);
    assert(h.take(n) =~= w.name);
    let v = h.skip(n + 1);
    if w.in_quotes {
        assert(v =~= seq!['"'] + w.value + seq!['"']);
        lemma_trimmed_when_tight(v);
        assert(v.subrange(1, v.len() - 1) =~= w.value);
    } else {
        assert(v =~= w.value);
        if v.len() >= 2 && v[0] == '"' {
            assert(w.value[0] == '"');
        }
    }
}

proof fn lemma_list_pieces(a: Seq<Written>)
    requires
        a.len() > 0,
        forall|i: int| 0 <= i < a.len() ==> (#[trigger] a[i]).wf(),
    ensures
        parser::pieces_of(list_text(a)) == a.map_values(|w: Written| w.shown()),
    decreases a.len(),
{
    let s = list_text(a);
    let h = a[0].shown();
    let n = h.len() as int;
    assert(s.subrange(0, n) =~= h);
    lemma_first_piece(a[0], s);
    let all = a.map_values(|w: Written| w.shown());
    if a.len() == 1 {
        assert(s.skip(0) =~= h);
        assert(all =~= seq![h]);
    } else {
        let r = a.skip(1);
        assert forall|i: int| 0 <= i < r.len() implies (#[trigger] r[i]).wf() by {
            assert(r[i] == a[i + 1]);
        }
        lemma_list_pieces(r);
        assert(s[n] == ',');
        lemma_pieces_shift(s, n + 1, n + 1, n + 1, false);
        assert(s.skip(n + 1) =~= list_text(r));
        assert(all =~= seq![h] + r.map_values(|w: Written| w.shown()));
    }
}

proof fn lemma_last_value(a: Seq<Written>, p: Seq<Seq<char>>, name: Seq<char>)
    requires
        forall|i: int| 0 <= i < a.len() ==> (#[trigger] a[i]).wf(),
        p == a.map_values(|w: Written| w.shown()),
    ensures
        parser::attr(p, name) == last_value(a, name),
    decreases a.len(),
{
    if a.len() > 0 {
        lemma_written_piece(a.last());
        assert(p.last() == a.last().shown());
        assert(p.drop_last() =~= a.drop_last().map_values(|w: Written| w.shown()));
        assert forall|i: int| 0 <= i < a.len() - 1 implies (#[trigger] a.drop_last()[i]).wf() by {
            assert(a.drop_last()[i] == a[i]);
        }
        lemma_last_value(a.drop_last(), p.drop_last(), name);
    }
}

/// The attributes of a list are read back, whatever their values hold in quotes; the last of a
/// name holds.
pub proof fn law_attributes_are_read_back(a: Seq<Written>, name: Seq<char>)
    requires
        a.len() > 0,
        forall|i: int| 0 <= i < a.len() ==> (#[trigger] a[i]).wf(),
    ensures
        parser::attr(parser::pieces_of(list_text(a)), name) == last_value(a, name),
{
    lemma_list_pieces(a);
    lemma_last_value(a, parser::pieces_of(list_text(a)), name);
}

proof fn lemma_hex_is_plain(b: Seq<u8>)
    ensures
        forall|i: int|
            0 <= i < text::hex_lower(b).len() ==> (#[trigger] text::hex_lower(b)[i]) != 'x'
                && text::hex_lower(b)[i] != 'X' && !text::white(text::hex_lower(b)[i])
                && text::hex_lower(b)[i] < '\u{80}',
        text::hex_lower(b).len() == 2 * b.len(),
{
}

/// Up to 16 bytes in hexadecimal are read as an IV that ends in them, behind zeros.
#[verifier::spinoff_prover]
#[verifier::rlimit(40)]
pub proof fn law_iv_is_read_back(b: Seq<u8>)
    requires
        b.len() <= 16,
    ensures
        parser::iv_of("0x"@ + text::hex_lower(b)) matches Ok(iv) && iv.len() == 16 && iv.skip(
            16 - b.len(),
        ) == b && forall|i: int| 0 <= i < 16 - b.len() ==> #[trigger] iv[i] == 0,
{
    let h = text::hex_lower(b);
    let s = "0x"@ + h;
    reveal_strlit("0x");
    reveal_strlit("0X");
    lemma_hex_is_plain(b);
    text::law_hex_round_trip(b);
    if h.len() > 0 {
        assert(s.last() == h.last());
        assert(!text::white(h[h.len() - 1]));
    }
    lemma_trimmed_when_tight(s);
    assert("0x"@.is_prefix_of(s)) by {
        assert(s.subrange(0, 2) =~= "0x"@);
    }
    assert(s.skip(2) =~= h);
    assert(!"0x"@.is_prefix_of(h)) by {
        if "0x"@.is_prefix_of(h) {
            lemma_prefix_char("0x"@, h, 1);
        }
    }
    assert(text::skip_text(h, "0x"@) == h);
    assert(text::skip_text(s, "0x"@) == h) by {
        reveal_with_fuel(text::skip_text, 2);
    }
    assert(!"0X"@.is_prefix_of(h)) by {
        if "0X"@.is_prefix_of(h) {
            lemma_prefix_char("0X"@, h, 1);
        }
    }
    vstd::utf8::is_ascii_chars_encode_utf8(h);
    let iv = crate::crypto::cenc::zeros(16 - b.len()) + b;
    assert(iv.skip(16 - b.len()) =~= b);
}

/// Whether attributes can be written as a list.
pub open spec fn is_list(a: Seq<Written>) -> bool {
    a.len() > 0 && forall|i: int| 0 <= i < a.len() ==> (#[trigger] a[i]).wf()
}

/// A key line gives the method that it names, with the address, the IV and the format that it
/// states.
pub proof fn law_key_line_is_read_back(a: Seq<Written>, url: Seq<char>, iv: Seq<u8>)
    requires
        is_list(a),
        iv.len() == 16,
        last_value(a, "IV"@) is None || last_value(a, "IV"@) == Some(
            "0x"@ + text::hex_lower(iv),
        ),
    ensures
        ({
            let key = parser::key_of(list_text(a), url);
            let method = last_value(a, "METHOD"@);
            let format = last_value(a, "KEYFORMAT"@);
            let stated_iv = if last_value(a, "IV"@) is Some {
                Some(iv)
            } else {
                None
            };
            &&& method is None || method == Some("NONE"@) ==> key == Ok::<
                _,
                parser::HlsErrorView,
            >(KeyView::Clear)
            &&& method == Some("AES-128"@) && (format is None || format == Some("identity"@))
                ==> match last_value(a, "URI"@) {
                None => key == Err::<KeyView, _>(parser::HlsErrorView::MissingKeyUri),
                Some(u) => match parser::resolved(url, u) {
                    Ok(uri) => key == Ok::<_, parser::HlsErrorView>(
                        KeyView::Aes128 { uri, iv: stated_iv },
                    ),
                    Err(e) => key == Err::<KeyView, _>(e),
                },
            }
            &&& method == Some("SAMPLE-AES"@) && format is Some && last_value(a, "URI"@) is None
                ==> key == Ok::<_, parser::HlsErrorView>(
                KeyView::SampleAes { key_format: format->0, uri: None, iv: stated_iv },
            )
            &&& method == Some("SAMPLE-AES-CTR"@) && format is Some && last_value(a, "URI"@) is None
                ==> key == Ok::<_, parser::HlsErrorView>(
                KeyView::SampleAesCtr { key_format: format->0, uri: None },
            )
            &&& method == Some("AES-128"@) && format is Some && format != Some("identity"@) ==> key
                == Ok::<_, parser::HlsErrorView>(
                KeyView::Unsupported { method: "AES-128"@, key_format: format->0 },
            )
        }),
{
    law_attributes_are_read_back(a, "METHOD"@);
    law_attributes_are_read_back(a, "KEYFORMAT"@);
    law_attributes_are_read_back(a, "IV"@);
    law_attributes_are_read_back(a, "URI"@);
    law_iv_is_read_back(iv);
    assert(iv.skip(0) =~= iv);
    reveal_strlit("NONE");
    reveal_strlit("AES-128");
    reveal_strlit("SAMPLE-AES");
    reveal_strlit("SAMPLE-AES-CTR");
    lemma_trimmed_when_tight("NONE"@);
    lemma_trimmed_when_tight("AES-128"@);
    lemma_trimmed_when_tight("SAMPLE-AES"@);
    lemma_trimmed_when_tight("SAMPLE-AES-CTR"@);
    assert(text::ascii_uppercase("NONE"@) =~= "NONE"@);
    assert(text::ascii_uppercase("AES-128"@) =~= "AES-128"@);
    assert(text::ascii_uppercase("SAMPLE-AES"@) =~= "SAMPLE-AES"@);
    assert(text::ascii_uppercase("SAMPLE-AES-CTR"@) =~= "SAMPLE-AES-CTR"@);
    assert("NONE"@.len() == 4 && "AES-128"@.len() == 7 && "SAMPLE-AES"@.len() == 10
        && "SAMPLE-AES-CTR"@.len() == 14);
    if last_value(a, "IV"@) is Some {
        let read = parser::iv_of("0x"@ + text::hex_lower(iv))->Ok_0;
        assert(read.skip(0) =~= read);
    }
}

/// The address of a key that is absolute, or holds the key itself, is taken as it stands; another
/// one is resolved.
pub proof fn law_key_address_is_kept(
    a: Seq<Written>,
    url: Seq<char>,
    address: Seq<char>,
    format: Seq<char>,
)
    requires
        is_list(a),
        last_value(a, "METHOD"@) == Some("SAMPLE-AES-CTR"@),
        last_value(a, "KEYFORMAT"@) == Some(format),
        last_value(a, "URI"@) == Some(address),
    ensures
        "data:"@.is_prefix_of(address) || text::contains(address, "://"@) ==> parser::key_of(
            list_text(a),
            url,
        ) == Ok::<_, parser::HlsErrorView>(
            KeyView::SampleAesCtr { key_format: format, uri: Some(address) },
        ),
        !"data:"@.is_prefix_of(address) && !text::contains(address, "://"@) ==> match (
        parser::resolved(url, address)) {
            Ok(u) => parser::key_of(list_text(a), url) == Ok::<_, parser::HlsErrorView>(
                KeyView::SampleAesCtr { key_format: format, uri: Some(u) },
            ),
            Err(e) => parser::key_of(list_text(a), url) == Err::<KeyView, _>(e),
        },
{
    law_attributes_are_read_back(a, "METHOD"@);
    law_attributes_are_read_back(a, "KEYFORMAT"@);
    law_attributes_are_read_back(a, "URI"@);
    reveal_strlit("NONE");
    reveal_strlit("SAMPLE-AES-CTR");
    lemma_trimmed_when_tight("SAMPLE-AES-CTR"@);
    assert(text::ascii_uppercase("SAMPLE-AES-CTR"@) =~= "SAMPLE-AES-CTR"@);
    assert("NONE"@.len() == 4 && "SAMPLE-AES-CTR"@.len() == 14);
}

proof fn lemma_resolution(w: int, h: int)
    requires
        0 <= w <= u32::MAX,
        0 <= h <= u32::MAX,
    ensures
        parser::resolution_of(Some(text::decimal(w) + "x"@ + text::decimal(h))) == (
            w as u32,
            h as u32,
        ),
{
    let a = text::decimal(w);
    let b = text::decimal(h);
    let s = a + "x"@ + b;
    reveal_strlit("x");
    text::law_decimal_round_trip(w);
    text::law_decimal_round_trip(h);
    assert forall|j: int| 0 <= j < a.len() implies #[trigger] s[j] != 'x' by {
        assert(s[j] == a[j]);
    }
    assert(s[a.len() as int] == 'x');
    text::lemma_index_is(s, 'x', 0, a.len() as int);
    assert(s.take(a.len() as int) =~= a);
    assert(s.skip(a.len() as int + 1) =~= b);
}

/// The address that follows an `#EXT-X-STREAM-INF` line, with nothing but blank lines and tags
/// between, is a variant: it has the groups, the bandwidth, the codecs and the resolution that the
/// line states, and the next number.
pub proof fn law_variant_is_read_back(
    lines: Seq<Seq<char>>,
    k: int,
    u: int,
    url: Seq<char>,
    a: Seq<Written>,
    bandwidth: int,
    w: int,
    h: int,
)
    requires
        0 <= k < u < lines.len(),
        ReadState::with_lines(lines, u + 1, url) is Ok,
        state(lines, k, url).pending is None,
        is_list(a),
        text::trimmed(lines[k]) == "#EXT-X-STREAM-INF:"@ + list_text(a),
        forall|i: int| k < i < u ==> !is_address(#[trigger] lines[i]),
        is_address(lines[u]),
        0 <= bandwidth <= u64::MAX,
        0 <= w <= u32::MAX,
        0 <= h <= u32::MAX,
    ensures
        ({
            let old_ones = state(lines, k, url).master.variants;
            let s = state(lines, u + 1, url);
            let v = s.master.variants.last();
            let average = last_value(a, "AVERAGE-BANDWIDTH"@);
            &&& s.is_master
            &&& s.pending is None
            &&& s.master.variants.len() == old_ones.len() + 1
            &&& s.master.variants.drop_last() == old_ones
            &&& s.media == state(lines, k, url).media
            &&& v.id == "hls-"@ + text::decimal(old_ones.len() as int)
            &&& parser::resolved(url, text::trimmed(lines[u])) == Ok::<_, parser::HlsErrorView>(
                v.uri,
            )
            &&& v.audio_group == last_value(a, "AUDIO"@)
            &&& v.subtitles_group == last_value(a, "SUBTITLES"@)
            &&& last_value(a, "BANDWIDTH"@) == Some(text::decimal(bandwidth)) ==> v.bandwidth
                == bandwidth
            &&& last_value(a, "BANDWIDTH"@) is None && average == Some(text::decimal(bandwidth))
                ==> v.bandwidth == bandwidth
            &&& last_value(a, "BANDWIDTH"@) is None && average is None ==> v.bandwidth == 0
            &&& last_value(a, "CODECS"@) is Some ==> v.codecs == last_value(a, "CODECS"@)->0
            &&& last_value(a, "CODECS"@) is None ==> v.codecs.len() == 0
            &&& last_value(a, "VIDEO-RANGE"@) is Some ==> v.video_range == last_value(
                a,
                "VIDEO-RANGE"@,
            )->0
            &&& last_value(a, "VIDEO-RANGE"@) is None ==> v.video_range == "SDR"@
            &&& last_value(a, "RESOLUTION"@) == Some(
                text::decimal(w) + "x"@ + text::decimal(h),
            ) ==> v.width == w && v.height == h
            &&& last_value(a, "RESOLUTION"@) is None ==> v.width == 0 && v.height == 0
        }),
{
    lemma_variant_waits(lines, k, u, url, list_text(a));
    law_attributes_are_read_back(a, "AUDIO"@);
    law_attributes_are_read_back(a, "SUBTITLES"@);
    law_attributes_are_read_back(a, "BANDWIDTH"@);
    law_attributes_are_read_back(a, "AVERAGE-BANDWIDTH"@);
    law_attributes_are_read_back(a, "CODECS"@);
    law_attributes_are_read_back(a, "VIDEO-RANGE"@);
    law_attributes_are_read_back(a, "RESOLUTION"@);
    text::law_decimal_round_trip(bandwidth);
    lemma_resolution(w, h);
    let old_ones = state(lines, k, url).master.variants;
    assert(state(lines, u + 1, url).master.variants.drop_last() =~= old_ones);
}

proof fn lemma_variant_waits(
    lines: Seq<Seq<char>>,
    k: int,
    n: int,
    url: Seq<char>,
    rest: Seq<char>,
)
    requires
        0 <= k < n < lines.len(),
        ReadState::with_lines(lines, n + 1, url) is Ok,
        state(lines, k, url).pending is None,
        text::trimmed(lines[k]) == "#EXT-X-STREAM-INF:"@ + rest,
        forall|i: int| k < i < n ==> !is_address(#[trigger] lines[i]),
    ensures
        ReadState::with_lines(lines, n, url) is Ok,
        ReadState::with_lines(lines, k, url) is Ok,
        state(lines, n, url) == (ReadState {
            is_master: true,
            pending: Some(parser::pieces_of(rest)),
            ..state(lines, k, url)
        }),
    decreases n - k,
{
    assert(ReadState::with_lines(lines, n, url) is Ok);
    if k + 1 < n {
        lemma_variant_waits(lines, k, n - 1, url, rest);
    } else {
        assert(ReadState::with_lines(lines, k, url) is Ok);
        lemma_behind("#EXT-X-STREAM-INF:"@, rest);
        reveal_strlit("#EXT-X-STREAM-INF:");
    }
}

/// A `#EXT-X-MEDIA` line with a group and an address is a rendition of the audio or of the
/// subtitles, as its type says, with what else it states; other lines of the kind are passed over.
pub proof fn law_rendition_is_read_back(
    lines: Seq<Seq<char>>,
    k: int,
    url: Seq<char>,
    a: Seq<Written>,
)
    requires
        0 <= k < lines.len(),
        ReadState::with_lines(lines, k + 1, url) is Ok,
        state(lines, k, url).pending is None,
        is_list(a),
        text::trimmed(lines[k]) == "#EXT-X-MEDIA:"@ + list_text(a),
    ensures
        ({
            let before = state(lines, k, url);
            let after = state(lines, k + 1, url);
            let whole = last_value(a, "GROUP-ID"@) is Some && last_value(a, "URI"@) is Some;
            let audio = last_value(a, "TYPE"@) == Some("AUDIO"@) && whole;
            let subtitles = last_value(a, "TYPE"@) == Some("SUBTITLES"@) && whole;
            let r = if audio {
                after.master.audio.last()
            } else {
                after.master.subtitles.last()
            };
            &&& audio ==> {
                &&& after.master.audio.drop_last() == before.master.audio
                &&& after.master.audio.len() == before.master.audio.len() + 1
                &&& r.id == "hls-a-"@ + text::decimal(before.master.audio.len() as int)
                &&& last_value(a, "CHANNELS"@) is Some ==> r.channels == last_value(
                    a,
                    "CHANNELS"@,
                )->0
            }
            &&& subtitles ==> {
                &&& after.master.subtitles.drop_last() == before.master.subtitles
                &&& after.master.subtitles.len() == before.master.subtitles.len() + 1
                &&& r.id == "hls-s-"@ + text::decimal(before.master.subtitles.len() as int)
                &&& r.channels.len() == 0
            }
            &&& audio || subtitles ==> {
                &&& Some(r.group_id) == last_value(a, "GROUP-ID"@)
                &&& parser::resolved(url, last_value(a, "URI"@)->0) == Ok::<
                    _,
                    parser::HlsErrorView,
                >(r.uri)
                &&& last_value(a, "NAME"@) is Some ==> r.name == last_value(a, "NAME"@)->0
                &&& last_value(a, "LANGUAGE"@) is Some ==> r.language == last_value(
                    a,
                    "LANGUAGE"@,
                )->0
                &&& r.is_default <==> last_value(a, "DEFAULT"@) == Some("YES"@)
            }
            &&& !audio ==> after.master.audio == before.master.audio
            &&& !subtitles ==> after.master.subtitles == before.master.subtitles
            &&& after.master.variants == before.master.variants
            &&& after.media == before.media
        }),
{
    assert(ReadState::with_lines(lines, k, url) is Ok);
    lemma_behind("#EXT-X-MEDIA:"@, list_text(a));
    lemma_tags_differ(text::trimmed(lines[k]));
    reveal_strlit("AUDIO");
    reveal_strlit("SUBTITLES");
    assert("AUDIO"@.len() == 5 && "SUBTITLES"@.len() == 9);
    law_attributes_are_read_back(a, "TYPE"@);
    law_attributes_are_read_back(a, "GROUP-ID"@);
    law_attributes_are_read_back(a, "URI"@);
    law_attributes_are_read_back(a, "NAME"@);
    law_attributes_are_read_back(a, "LANGUAGE"@);
    law_attributes_are_read_back(a, "CHANNELS"@);
    law_attributes_are_read_back(a, "DEFAULT"@);
    let before = state(lines, k, url);
    let after = state(lines, k + 1, url);
    if after.master.audio != before.master.audio {
        assert(after.master.audio.drop_last() =~= before.master.audio);
    }
    if after.master.subtitles != before.master.subtitles {
        assert(after.master.subtitles.drop_last() =~= before.master.subtitles);
    }
}

/// Without an `#EXT-X-STREAM-INF` line a playlist is one of segments, with one it is a master
/// playlist.
pub proof fn law_stream_makes_master(lines: Seq<Seq<char>>, n: int, url: Seq<char>)
    requires
        0 <= n <= lines.len(),
        ReadState::with_lines(lines, n, url) is Ok,
    ensures
        state(lines, n, url).is_master <==> !lack(lines, 0, n, "#EXT-X-STREAM-INF:"@),
        state(lines, n, url).pending is Some ==> state(lines, n, url).is_master,
        state(lines, n, url).playlist() is Master <==> state(lines, n, url).is_master,
    decreases n,
{
    if n > 0 {
        law_stream_makes_master(lines, n - 1, url);
        let line = text::trimmed(lines[n - 1]);
        lemma_tags_differ(line);
        assert(lack(lines, 0, n, "#EXT-X-STREAM-INF:"@) <==> lack(
            lines,
            0,
            n - 1,
            "#EXT-X-STREAM-INF:"@,
        ) && !has_tag(lines[n - 1], "#EXT-X-STREAM-INF:"@));
    }
}

/// An `#EXTINF` line states its duration before the comma, whatever title stands behind it.
pub proof fn law_extinf_states_duration(seconds: int, ms: int, title: Seq<char>)
    requires
        0 <= seconds,
        0 <= ms < 1000,
        seconds * 1_000_000_000 + ms * 1_000_000 <= i64::MAX,
    ensures
        ({
            let t = text::decimal(seconds) + seq!['.'] + text::decimal3(ms);
            let ns = seconds * 1_000_000_000 + ms * 1_000_000;
            &&& parser::extinf_ns(t + seq![','] + title) == ns
            &&& parser::extinf_ns(seq!['-'] + t + seq![','] + title) == -ns
            &&& parser::extinf_ns(text::decimal(seconds) + seq![','] + title) == seconds
                * 1_000_000_000
        }),
{
    let a = text::decimal(seconds);
    let f = text::decimal3(ms);
    let t = a + seq!['.'] + f;
    crate::time::law_milliseconds_are_read_back(seconds, ms);
    crate::time::law_whole_seconds_are_read_back(seconds);
    crate::time::lemma_three_digits(ms);
    text::law_decimal_round_trip(seconds);
    assert forall|j: int| 0 <= j < t.len() implies #[trigger] t[j] != ',' && !text::white(t[j]) by {
        if j < a.len() {
            assert(t[j] == a[j]);
        } else if j > a.len() {
            assert(t[j] == f[j - a.len() - 1]);
        }
    }
    lemma_extinf(t, title);
    assert forall|j: int| 0 <= j < a.len() implies #[trigger] a[j] != ',' && !text::white(a[j]) by {
        assert('0' <= a[j] && a[j] <= '9');
    }
    lemma_extinf(a, title);
    let m = seq!['-'] + t;
    assert forall|j: int| 0 <= j < m.len() implies #[trigger] m[j] != ',' && !text::white(m[j]) by {
        if j > 0 {
            assert(m[j] == t[j - 1]);
        }
    }
    lemma_extinf(m, title);
    assert(m =~= seq!['-'] + a + seq!['.'] + f);
    assert(seq!['-'] + t + seq![','] + title =~= m + seq![','] + title);
}

proof fn lemma_extinf(t: Seq<char>, title: Seq<char>)
    requires
        t.len() > 0,
        forall|j: int| 0 <= j < t.len() ==> #[trigger] t[j] != ',' && !text::white(t[j]),
    ensures
        parser::extinf_ns(t + seq![','] + title) == match crate::time::decimal_ns(t) {
            Some(v) => crate::time::as_duration(v),
            None => 0,
        },
{
    let s = t + seq![','] + title;
    assert forall|j: int| 0 <= j < t.len() implies #[trigger] s[j] != ',' by {
        assert(s[j] == t[j]);
    }
    assert(s[t.len() as int] == ',');
    text::lemma_index_is(s, ',', 0, t.len() as int);
    assert(s.take(t.len() as int) =~= t);
    lemma_trimmed_when_tight(t);
}

} // verus!
