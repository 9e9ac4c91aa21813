//! An HLS source: which playlists are read, which segments are fetched next.

use vstd::prelude::*;

use super::live_tuning;
use crate::hls::parser;
use crate::hls::parser::{HlsSegmentView, MediaView, RenditionView, VariantView};
use crate::hls::{HlsMaster, HlsMediaPlaylist, HlsRendition, HlsSegment, HlsVariant};
use crate::text;
use crate::time::{Span, LONGEST};

verus! {

/// Why no rendition can be taken.
#[derive(Debug)]
pub enum RenditionError {
    /// The variant has no group of renditions.
    NoGroup,
    /// There is none of the name that was chosen.
    NotFound,
    /// The one that was chosen belongs to this group, and the variant to another.
    WrongGroup(String),
}

/// The first variant from `i` on with the name `id`.
pub open spec fn variant_named(v: Seq<VariantView>, id: Seq<char>, i: int) -> Option<int>
    decreases v.len() - i,
{
    if i < 0 || i >= v.len() {
        None
    } else if v[i].id == id {
        Some(i)
    } else {
        variant_named(v, id, i + 1)
    }
}

/// The variant with the name `id`.
pub fn select_variant<'a>(master: &'a HlsMaster, id: &str) -> (r: Option<&'a HlsVariant>)
    ensures
        match r {
            Some(v) => variant_named(master@.variants, id@, 0) matches Some(i) && 0 <= i
                < master@.variants.len() && v@ == master@.variants[i],
            None => variant_named(master@.variants, id@, 0) is None,
        },
{
    let ghost all = master@.variants;
    let n: usize = master.variants.len();
    let mut i: usize = 0;
    while i < n
        invariant
            n == master.variants@.len(),
            i <= n,
            all == master@.variants,
            variant_named(all, id@, 0) == variant_named(all, id@, i as int),
        decreases n - i,
    {
        assert(all[i as int] == master.variants@[i as int]@);
        if text::same(master.variants[i].id.as_str(), id) {
            return Some(&master.variants[i]);
        }
        i = i + 1;
    }
    None
}

/// The first rendition from `i` on with the name `id`.
pub open spec fn rendition_named(v: Seq<RenditionView>, id: Seq<char>, i: int) -> Option<int>
    decreases v.len() - i,
{
    if i < 0 || i >= v.len() {
        None
    } else if v[i].id == id {
        Some(i)
    } else {
        rendition_named(v, id, i + 1)
    }
}

/// The first rendition from `i` on of a group, and a default one where that is asked for.
pub open spec fn rendition_in(v: Seq<RenditionView>, group: Seq<char>, default: bool, i: int) -> Option<
    int,
>
    decreases v.len() - i,
{
    if i < 0 || i >= v.len() {
        None
    } else if v[i].group_id == group && (v[i].is_default || !default) {
        Some(i)
    } else {
        rendition_in(v, group, default, i + 1)
    }
}

/// The name that was chosen, unless it is blank.
pub open spec fn name_chosen(id: Option<Seq<char>>) -> Option<Seq<char>> {
    match id {
        Some(x) if text::trimmed(x).len() > 0 => Some(x),
        _ => None,
    }
}

/// The rendition of a group: the one that was chosen, or else the first default one, or else the
/// first.
pub open spec fn rendition_of(
    v: Seq<RenditionView>,
    group: Seq<char>,
    id: Option<Seq<char>>,
) -> Option<int> {
    match name_chosen(id) {
        Some(x) => rendition_named(v, x, 0),
        None => match rendition_in(v, group, true, 0) {
            Some(i) => Some(i),
            None => rendition_in(v, group, false, 0),
        },
    }
}

/// Whether `r` is what is said to the name `id`, chosen for a variant of the group `group`.
pub open spec fn answers(
    r: Result<Option<&HlsRendition>, RenditionError>,
    v: Seq<RenditionView>,
    group: Seq<char>,
    id: Option<Seq<char>>,
) -> bool {
    let place = rendition_of(v, group, id);
    let named = name_chosen(id) is Some;
    match r {
        Ok(Some(x)) => place matches Some(i) && 0 <= i < v.len() && x@ == v[i] && v[i].group_id
            == group,
        Ok(None) => place is None && !named,
        Err(RenditionError::NotFound) => place is None && named,
        Err(RenditionError::WrongGroup(g)) => named && (place matches Some(i) && 0 <= i < v.len()
            && v[i].group_id != group && g@ == v[i].group_id),
        Err(RenditionError::NoGroup) => false,
    }
}

fn find_rendition<'a>(v: &'a [HlsRendition], id: &str) -> (r: Option<&'a HlsRendition>)
    ensures
        match r {
            Some(x) => rendition_named(parser::rendition_views(v@), id@, 0) matches Some(i) && 0
                <= i < v@.len() && x@ == parser::rendition_views(v@)[i],
            None => rendition_named(parser::rendition_views(v@), id@, 0) is None,
        },
{
    let ghost all = parser::rendition_views(v@);
    let n: usize = v.len();
    let mut i: usize = 0;
    while i < n
        invariant
            n == v@.len(),
            i <= n,
            all == parser::rendition_views(v@),
            rendition_named(all, id@, 0) == rendition_named(all, id@, i as int),
        decreases n - i,
    {
        assert(all[i as int] == v@[i as int]@);
        if text::same(v[i].id.as_str(), id) {
            return Some(&v[i]);
        }
        i = i + 1;
    }
    None
}

fn find_in_group<'a>(v: &'a [HlsRendition], group: &str, default: bool) -> (r: Option<
    &'a HlsRendition,
>)
    ensures
        match r {
            Some(x) => rendition_in(parser::rendition_views(v@), group@, default, 0) matches Some(
                i,
            ) && 0 <= i < v@.len() && x@ == parser::rendition_views(v@)[i] && x@.group_id == group@,
            None => rendition_in(parser::rendition_views(v@), group@, default, 0) is None,
        },
{
    let ghost all = parser::rendition_views(v@);
    let n: usize = v.len();
    let mut i: usize = 0;
    while i < n
        invariant
            n == v@.len(),
            i <= n,
            all == parser::rendition_views(v@),
            rendition_in(all, group@, default, 0) == rendition_in(all, group@, default, i as int),
        decreases n - i,
    {
        assert(all[i as int] == v@[i as int]@);
        if text::same(v[i].group_id.as_str(), group) && (v[i].is_default || !default) {
            return Some(&v[i]);
        }
        i = i + 1;
    }
    None
}

/// Whether a text is blank.
pub fn is_blank(s: &str) -> (r: bool)
    ensures
        r == (text::trimmed(s@).len() == 0),
{
    let c: Vec<char> = text::to_chars(s);
    text::trim(c.as_slice()).len() == 0
}

fn select_rendition<'a>(v: &'a [HlsRendition], group: &str, id: Option<&str>) -> (r: Result<
    Option<&'a HlsRendition>,
    RenditionError,
>)
    ensures
        answers(r, parser::rendition_views(v@), group@, text::ref_text(id)),
{
    if let Some(x) = id {
        if !is_blank(x) {
            return match find_rendition(v, x) {
                None => Err(RenditionError::NotFound),
                Some(s) => {
                    if text::same(s.group_id.as_str(), group) {
                        Ok(Some(s))
                    } else {
                        Err(RenditionError::WrongGroup(text::clone_text(s.group_id.as_str())))
                    }
                },
            };
        }
    }
    match find_in_group(v, group, true) {
        Some(s) => Ok(Some(s)),
        None => Ok(find_in_group(v, group, false)),
    }
}

/// The audio of a variant; one without a group has none of its own.
pub fn select_audio_rendition<'a>(
    audio: &'a [HlsRendition],
    group: Option<&str>,
    selected_audio_id: Option<&str>,
) -> (r: Result<Option<&'a HlsRendition>, RenditionError>)
    ensures
        match group {
            None => r matches Ok(None),
            Some(g) => answers(
                r,
                parser::rendition_views(audio@),
                g@,
                text::ref_text(selected_audio_id),
            ),
        },
{
    match group {
        None => Ok(None),
        Some(g) => select_rendition(audio, g, selected_audio_id),
    }
}

/// The subtitles of a variant, where they are switched on: a group has to be there.
pub fn select_subtitle_rendition<'a>(
    subtitles: &'a [HlsRendition],
    group: Option<&str>,
    enabled: bool,
    selected_subtitle_id: Option<&str>,
) -> (r: Result<Option<&'a HlsRendition>, RenditionError>)
    ensures
        if !enabled {
            r matches Ok(None)
        } else {
            match group {
                None => r matches Err(RenditionError::NoGroup),
                Some(g) => answers(
                    r,
                    parser::rendition_views(subtitles@),
                    g@,
                    text::ref_text(selected_subtitle_id),
                ),
            }
        },
{
    if !enabled {
        return Ok(None);
    }
    match group {
        None => Err(RenditionError::NoGroup),
        Some(g) => select_rendition(subtitles, g, selected_subtitle_id),
    }
}

/// The playlists that are read.
#[derive(Debug)]
pub struct SelectedHlsInput {
    pub video_url: String,
    pub video: HlsMediaPlaylist,
    pub audio_url: Option<String>,
    pub audio: Option<HlsMediaPlaylist>,
    pub subtitle_url: Option<String>,
    pub subtitle: Option<HlsMediaPlaylist>,
}

/// What a value of [`SelectedHlsInput`] holds.
pub struct InputView {
    pub video: MediaView,
    pub audio: Option<MediaView>,
    pub subtitle: Option<MediaView>,
}

/// What an optional playlist holds.
pub open spec fn opt_media(m: Option<HlsMediaPlaylist>) -> Option<MediaView> {
    match m {
        Some(x) => Some(x@),
        None => None,
    }
}

impl View for SelectedHlsInput {
    type V = InputView;

    open spec fn view(&self) -> InputView {
        InputView {
            video: self.video@,
            audio: opt_media(self.audio),
            subtitle: opt_media(self.subtitle),
        }
    }
}

/// The duration of the last segment, or else the target. One below zero or without end counts as
/// 0: it says nothing of the pace.
pub open spec fn segment_span(p: MediaView) -> Span {
    if p.segments.len() > 0 {
        let ns = p.segments.last().duration_ns;
        Span {
            ticks: if 0 < ns < LONGEST {
                ns as u64
            } else {
                0
            },
            scale: 1_000_000_000,
        }
    } else {
        Span { ticks: p.target_duration, scale: 1 }
    }
}

/// The duration of the last segment, or else the target.
pub fn media_segment_duration(p: &HlsMediaPlaylist) -> (r: Span)
    ensures
        r == segment_span(p@),
{
    let n: usize = p.segments.len();
    assert(p@.segments.len() == n);
    if n > 0 {
        assert(p@.segments[n - 1] == p.segments@[n - 1]@);
        let ns: i64 = p.segments[n - 1].duration_ns;
        if 0 < ns && ns < LONGEST {
            Span::from_ns(ns as u64)
        } else {
            Span::from_ns(0)
        }
    } else {
        Span { ticks: p.target_duration, scale: 1 }
    }
}

/// The first segment from `i` on with the number `sequence`, or one behind it where `behind`.
pub open spec fn first_at(s: Seq<HlsSegmentView>, sequence: u64, behind: bool, i: int) -> Option<int>
    decreases s.len() - i,
{
    if i < 0 || i >= s.len() {
        None
    } else if s[i].sequence == sequence || behind && s[i].sequence > sequence {
        Some(i)
    } else {
        first_at(s, sequence, behind, i + 1)
    }
}

/// The duration of the segments from the place `i` on up to the first that does not come before
/// the number `sequence`.
pub open spec fn time_before(s: Seq<HlsSegmentView>, sequence: u64, i: int) -> int
    decreases s.len() - i,
{
    if i < 0 || i >= s.len() || s[i].sequence >= sequence {
        0
    } else {
        s[i].duration_ns + time_before(s, sequence, i + 1)
    }
}

/// For how long the segment `i` is shown during the first `duration` of its playlist.
pub open spec fn shown_during(p: MediaView, i: int, duration: i64) -> int {
    let seg = p.segments[i];
    let start = if seg.sequence >= p.media_sequence {
        time_before(p.segments, seg.sequence, 0)
    } else {
        0
    };
    let end = start + seg.duration_ns;
    (if duration < end {
        duration as int
    } else {
        end
    }) - (if start > 0 {
        start
    } else {
        0
    })
}

/// The last of the first `n` segments that is shown longest, if any is shown.
pub open spec fn longest_shown(p: MediaView, duration: i64, n: int) -> Option<int>
    decreases n,
{
    if n <= 0 {
        None
    } else {
        let d = shown_during(p, n - 1, duration);
        match longest_shown(p, duration, n - 1) {
            Some(b) if d < shown_during(p, b, duration) => Some(b),
            Some(b) => Some(n - 1),
            None => if d > 0 {
                Some(n - 1)
            } else {
                None
            },
        }
    }
}

/// The subtitle segment that belongs to a video segment: that of the same number, or else the one
/// that is shown longest, or else the first behind it.
pub open spec fn subtitle_for(video: HlsSegmentView, p: MediaView) -> Option<int> {
    match first_at(p.segments, video.sequence, false, 0) {
        Some(i) => Some(i),
        None => match longest_shown(p, video.duration_ns, p.segments.len() as int) {
            Some(i) => Some(i),
            None => first_at(p.segments, video.sequence, true, 0),
        },
    }
}

fn find_at(p: &HlsMediaPlaylist, sequence: u64, behind: bool) -> (r: Option<usize>)
    ensures
        match r {
            Some(i) => i < p.segments@.len() && first_at(p@.segments, sequence, behind, 0) == Some(
                i as int,
            ),
            None => first_at(p@.segments, sequence, behind, 0) is None,
        },
{
    let ghost s = p@.segments;
    let n: usize = p.segments.len();
    let mut i: usize = 0;
    while i < n
        invariant
            n == p.segments@.len(),
            i <= n,
            s == p@.segments,
            first_at(s, sequence, behind, 0) == first_at(s, sequence, behind, i as int),
        decreases n - i,
    {
        assert(s[i as int] == p.segments@[i as int]@);
        if p.segments[i].sequence == sequence || behind && p.segments[i].sequence > sequence {
            return Some(i);
        }
        i = i + 1;
    }
    None
}

fn start_of(p: &HlsMediaPlaylist, sequence: u64) -> (r: i128)
    ensures
        r == time_before(p@.segments, sequence, 0),
        -(p@.segments.len() * 0x8000_0000_0000_0000) <= r <= p@.segments.len()
            * 0x7fff_ffff_ffff_ffff,
{
    let ghost s = p@.segments;
    let n: usize = p.segments.len();
    let mut total: i128 = 0;
    let mut i: usize = 0;
    let ghost all = time_before(s, sequence, 0);
    while i < n && p.segments[i].sequence < sequence
        invariant
            n == p.segments@.len(),
            n == s.len(),
            i <= n,
            s == p@.segments,
            all == time_before(s, sequence, 0),
            -(i * 0x8000_0000_0000_0000) <= total <= i * 0x7fff_ffff_ffff_ffff,
            all == total + time_before(s, sequence, i as int),
        decreases n - i,
    {
        assert(s[i as int] == p.segments@[i as int]@);
        total = total + p.segments[i].duration_ns as i128;
        i = i + 1;
    }
    assert(i < n ==> s[i as int] == p.segments@[i as int]@);
    total
}

fn shown(p: &HlsMediaPlaylist, i: usize, duration: i64) -> (r: i128)
    requires
        i < p.segments@.len(),
    ensures
        r > 0 <==> shown_during(p@, i as int, duration) > 0,
        r > 0 ==> r == shown_during(p@, i as int, duration),
{
    assert(p@.segments[i as int] == p.segments@[i as int]@);
    assert(p@.segments.len() == p.segments.len());
    let start: i128 = if p.segments[i].sequence >= p.media_sequence {
        start_of(p, p.segments[i].sequence)
    } else {
        0
    };
    let end: i128 = start + p.segments[i].duration_ns as i128;
    let until: i128 = if (duration as i128) < end {
        duration as i128
    } else {
        end
    };
    let from: i128 = if start > 0 {
        start
    } else {
        0
    };
    if until > from {
        until - from
    } else {
        0
    }
}

/// The subtitle segment that belongs to a video segment.
pub fn subtitle_segment_for_hls_video<'a>(
    video: &HlsSegment,
    subtitles: &'a HlsMediaPlaylist,
) -> (r: Option<&'a HlsSegment>)
    ensures
        match r {
            Some(s) => subtitle_for(video@, subtitles@) matches Some(i) && 0 <= i
                < subtitles@.segments.len() && s@ == subtitles@.segments[i],
            None => subtitle_for(video@, subtitles@) is None,
        },
{
    let ghost s = subtitles@.segments;
    let n: usize = subtitles.segments.len();
    assert(s.len() == n);
    if let Some(i) = find_at(subtitles, video.sequence, false) {
        assert(s[i as int] == subtitles.segments@[i as int]@);
        return Some(&subtitles.segments[i]);
    }
    let mut best: Option<usize> = None;
    let mut most: i128 = 0;
    for i in 0..n
        invariant
            n == subtitles.segments@.len(),
            match best {
                Some(b) => {
                    &&& b < i
                    &&& longest_shown(subtitles@, video.duration_ns, i as int) == Some(b as int)
                    &&& most == shown_during(subtitles@, b as int, video.duration_ns)
                    &&& most > 0
                },
                None => longest_shown(subtitles@, video.duration_ns, i as int) is None && most
                    == 0,
            },
    {
        let d: i128 = shown(subtitles, i, video.duration_ns);
        if d > 0 && d >= most {
            best = Some(i);
            most = d;
        }
    }
    if let Some(b) = best {
        assert(s[b as int] == subtitles.segments@[b as int]@);
        return Some(&subtitles.segments[b]);
    }
    match find_at(subtitles, video.sequence, true) {
        Some(i) => {
            assert(s[i as int] == subtitles.segments@[i as int]@);
            Some(&subtitles.segments[i])
        },
        None => None,
    }
}

/// The number of the first segment.
pub open spec fn first_sequence(p: MediaView) -> u64 {
    if p.segments.len() > 0 {
        p.segments[0].sequence
    } else {
        p.media_sequence
    }
}

/// Where a source is entered: where it was left, at the start of one that ends, or some segments
/// before the newest of one that goes on.
pub open spec fn entry_of(resume: u64, p: MediaView, publish_delay: int) -> u64 {
    let first = first_sequence(p);
    let last = if p.segments.len() > 0 {
        p.segments.last().sequence
    } else {
        first
    };
    if resume > first {
        resume
    } else if p.end_list {
        first
    } else {
        let back = live_tuning::backfill_of(segment_span(p), publish_delay) - 1;
        if last - back > first {
            (last - back) as u64
        } else {
            first
        }
    }
}

fn first_number(p: &HlsMediaPlaylist) -> (r: u64)
    ensures
        r == first_sequence(p@),
{
    assert(p@.segments.len() == p.segments@.len());
    if p.segments.len() > 0 {
        assert(p@.segments[0] == p.segments@[0]@);
        p.segments[0].sequence
    } else {
        p.media_sequence
    }
}

/// Where a source is entered.
pub fn initial_sequence(resume: u64, p: &HlsMediaPlaylist, publish_delay: usize) -> (r: u64)
    ensures
        r == entry_of(resume, p@, publish_delay as int),
{
    let first: u64 = first_number(p);
    if resume > first {
        return resume;
    }
    if !p.is_live() {
        return first;
    }
    let n: usize = p.segments.len();
    assert(p@.segments.len() == n);
    let last: u64 = if n > 0 {
        assert(p@.segments[n - 1] == p.segments@[n - 1]@);
        p.segments[n - 1].sequence
    } else {
        first
    };
    let back: u64 = live_tuning::initial_live_backfill_segments(
        media_segment_duration(p),
        publish_delay,
    ) - 1;
    if last > back && last - back > first {
        last - back
    } else {
        first
    }
}

/// Whether the numbers of a playlist went back.
pub open spec fn rewound(old: MediaView, fresh: MediaView) -> bool {
    ||| fresh.media_sequence < old.media_sequence
    ||| fresh.segments.len() > 0 && old.segments.len() > 0 && fresh.segments.last().sequence
        < old.segments[0].sequence
}

/// Whether the numbers of a playlist went back.
pub fn hls_media_sequence_rewound(old: &HlsMediaPlaylist, fresh: &HlsMediaPlaylist) -> (r: bool)
    ensures
        r == rewound(old@, fresh@),
{
    if fresh.media_sequence < old.media_sequence {
        return true;
    }
    let n: usize = fresh.segments.len();
    assert(fresh@.segments.len() == n);
    assert(old@.segments.len() == old.segments@.len());
    if n > 0 && old.segments.len() > 0 {
        assert(fresh@.segments[n - 1] == fresh.segments@[n - 1]@);
        assert(old@.segments[0] == old.segments@[0]@);
        fresh.segments[n - 1].sequence < old.segments[0].sequence
    } else {
        false
    }
}

/// Where a source stands: the number of the next segment, and the addresses of those that were
/// there before.
#[derive(Debug)]
pub struct Cursor {
    pub next_sequence: u64,
    pub seen: Vec<String>,
}

/// What a value of [`Cursor`] holds.
#[verifier::ext_equal]
pub struct CursorView {
    pub next_sequence: u64,
    pub seen: Seq<Seq<char>>,
}

impl View for Cursor {
    type V = CursorView;

    open spec fn view(&self) -> CursorView {
        CursorView { next_sequence: self.next_sequence, seen: text::texts(self.seen@) }
    }
}

/// The addresses so far, with those of the first `n` segments that have a number below `next`.
pub open spec fn with_seen(
    seen: Seq<Seq<char>>,
    s: Seq<HlsSegmentView>,
    next: u64,
    n: int,
) -> Seq<Seq<char>>
    decreases n,
{
    if n <= 0 {
        seen
    } else {
        let before = with_seen(seen, s, next, n - 1);
        let x = s[n - 1];
        if x.sequence < next && !before.contains(x.uri) {
            before.push(x.uri)
        } else {
            before
        }
    }
}

impl CursorView {
    /// At the number `next`, with what is listed before it.
    pub open spec fn at(self, p: MediaView, next: u64) -> Self {
        CursorView {
            next_sequence: next,
            seen: with_seen(self.seen, p.segments, next, p.segments.len() as int),
        }
    }

    /// At the entry of a source.
    pub open spec fn entered(p: MediaView, next: u64) -> Self {
        (CursorView { next_sequence: next, seen: Seq::empty() }).at(p, next)
    }

    /// At the start of a playlist whose numbers went back.
    pub open spec fn restarted(p: MediaView) -> Self {
        CursorView { next_sequence: first_sequence(p), seen: Seq::empty() }
    }

    /// Whether there is a segment from the next number on that was not there before.
    pub open spec fn has_more(self, p: MediaView) -> bool {
        exists|i: int|
            0 <= i < p.segments.len() && (#[trigger] p.segments[i]).sequence >= self.next_sequence
                && !self.seen.contains(p.segments[i].uri)
    }
}

impl Cursor {
    /// Enters a source at the number `next`.
    pub fn enter(p: &HlsMediaPlaylist, next: u64) -> (r: Self)
        ensures
            r@ == CursorView::entered(p@, next),
    {
        let mut r = Cursor { next_sequence: next, seen: Vec::new() };
        assert(r@.seen =~= Seq::<Seq<char>>::empty());
        r.move_to(p, next);
        r
    }

    /// Goes on at the number `next`.
    pub fn move_to(&mut self, p: &HlsMediaPlaylist, next: u64)
        ensures
            final(self)@ == old(self)@.at(p@, next),
    {
        let ghost seen = self@.seen;
        let ghost s = p@.segments;
        self.next_sequence = next;
        let n: usize = p.segments.len();
        for i in 0..n
            invariant
                n == p.segments@.len(),
                s == p@.segments,
                self.next_sequence == next,
                self@.seen == with_seen(seen, s, next, i as int),
        {
            assert(s[i as int] == p.segments@[i as int]@);
            if p.segments[i].sequence < next && !text::listed(
                self.seen.as_slice(),
                p.segments[i].uri.as_str(),
            ) {
                let ghost before = self.seen@;
                self.seen.push(text::clone_text(p.segments[i].uri.as_str()));
                assert(text::texts(self.seen@) =~= text::texts(before).push(s[i as int].uri));
            }
        }
    }

    /// Starts again with a playlist whose numbers went back.
    pub fn restart(&mut self, p: &HlsMediaPlaylist)
        ensures
            final(self)@ == CursorView::restarted(p@),
    {
        self.seen = Vec::new();
        self.next_sequence = first_number(p);
        assert(self@.seen =~= Seq::<Seq<char>>::empty());
    }

    /// Whether there is a segment from the next number on that was not there before.
    pub fn has_unseen_hls_segment_at_or_after(&self, p: &HlsMediaPlaylist) -> (r: bool)
        ensures
            r == self@.has_more(p@),
    {
        let n: usize = p.segments.len();
        for i in 0..n
            invariant
                n == p.segments@.len(),
                forall|j: int|
                    0 <= j < i ==> !((#[trigger] p@.segments[j]).sequence >= self.next_sequence
                        && !self@.seen.contains(p@.segments[j].uri)),
        {
            assert(p@.segments[i as int] == p.segments@[i as int]@);
            if p.segments[i].sequence >= self.next_sequence && !text::listed(
                self.seen.as_slice(),
                p.segments[i].uri.as_str(),
            ) {
                return true;
            }
        }
        false
    }
}

/// A TS segment to be fetched, with the subtitles that belong to it.
#[derive(Debug)]
pub struct HlsTsJob {
    pub video: HlsSegment,
    pub subtitle: Option<HlsSegment>,
}

/// What a value of [`HlsTsJob`] holds.
pub struct TsJobView {
    pub video: HlsSegmentView,
    pub subtitle: Option<HlsSegmentView>,
}

/// What an optional segment holds.
pub open spec fn opt_segment(s: Option<HlsSegment>) -> Option<HlsSegmentView> {
    match s {
        Some(x) => Some(x@),
        None => None,
    }
}

impl View for HlsTsJob {
    type V = TsJobView;

    open spec fn view(&self) -> TsJobView {
        TsJobView { video: self.video@, subtitle: opt_segment(self.subtitle) }
    }
}

/// What a list of jobs holds.
pub open spec fn ts_job_views(v: Seq<HlsTsJob>) -> Seq<TsJobView> {
    v.map_values(|j: HlsTsJob| j@)
}

/// The job of a TS segment.
pub open spec fn ts_job(video: HlsSegmentView, subtitle: Option<MediaView>) -> TsJobView {
    TsJobView {
        video,
        subtitle: match subtitle {
            Some(p) => match subtitle_for(video, p) {
                Some(i) => Some(p.segments[i]),
                None => None,
            },
            None => None,
        },
    }
}

/// The jobs of the first `n` segments: of those that were not there before.
pub open spec fn ts_jobs(input: InputView, seen: Seq<Seq<char>>, n: int) -> Seq<TsJobView>
    decreases n,
{
    if n <= 0 {
        Seq::empty()
    } else {
        let x = input.video.segments[n - 1];
        let before = ts_jobs(input, seen, n - 1);
        if seen.contains(x.uri) {
            before
        } else {
            before.push(ts_job(x, input.subtitle))
        }
    }
}

/// The TS segments that are fetched next.
pub fn build_ts_jobs(selected: &SelectedHlsInput, seen: &[String]) -> (r: Vec<HlsTsJob>)
    ensures
        ts_job_views(r@) == ts_jobs(
            selected@,
            text::texts(seen@),
            selected@.video.segments.len() as int,
        ),
{
    let ghost s = selected@.video.segments;
    let ghost known = text::texts(seen@);
    let mut out: Vec<HlsTsJob> = Vec::new();
    assert(ts_job_views(out@) =~= Seq::<TsJobView>::empty());
    let n: usize = selected.video.segments.len();
    for i in 0..n
        invariant
            n == selected.video.segments@.len(),
            s == selected@.video.segments,
            known == text::texts(seen@),
            ts_job_views(out@) == ts_jobs(selected@, known, i as int),
    {
        let video: &HlsSegment = &selected.video.segments[i];
        assert(s[i as int] == video@);
        if !text::listed(seen, video.uri.as_str()) {
            let subtitle: Option<HlsSegment> = match &selected.subtitle {
                Some(p) => match subtitle_segment_for_hls_video(video, p) {
                    Some(x) => Some(x.duplicate()),
                    None => None,
                },
                None => None,
            };
            let job = HlsTsJob { video: video.duplicate(), subtitle };
            assert(job@ == ts_job(video@, selected@.subtitle));
            let ghost before = out@;
            out.push(job);
            assert(ts_job_views(out@) =~= ts_job_views(before).push(job@));
        }
    }
    out
}

/// An fMP4 segment to be fetched, with the audio and the subtitles of its number.
#[derive(Debug)]
pub struct Fmp4Job {
    pub sequence: u64,
    pub video: HlsSegment,
    pub audio: Option<HlsSegment>,
    pub subtitle: Option<HlsSegment>,
}

/// What a value of [`Fmp4Job`] holds.
pub struct Fmp4JobView {
    pub sequence: u64,
    pub video: HlsSegmentView,
    pub audio: Option<HlsSegmentView>,
    pub subtitle: Option<HlsSegmentView>,
}

impl View for Fmp4Job {
    type V = Fmp4JobView;

    open spec fn view(&self) -> Fmp4JobView {
        Fmp4JobView {
            sequence: self.sequence,
            video: self.video@,
            audio: opt_segment(self.audio),
            subtitle: opt_segment(self.subtitle),
        }
    }
}

/// What a list of jobs holds.
pub open spec fn fmp4_job_views(v: Seq<Fmp4Job>) -> Seq<Fmp4JobView> {
    v.map_values(|j: Fmp4Job| j@)
}

/// The last of the first `n` segments with a number.
pub open spec fn last_at(s: Seq<HlsSegmentView>, sequence: u64, n: int) -> Option<HlsSegmentView>
    decreases n,
{
    if n <= 0 {
        None
    } else if s[n - 1].sequence == sequence {
        Some(s[n - 1])
    } else {
        last_at(s, sequence, n - 1)
    }
}

/// The segment of a playlist with a number.
pub open spec fn numbered(p: Option<MediaView>, sequence: u64) -> Option<HlsSegmentView> {
    match p {
        Some(m) => last_at(m.segments, sequence, m.segments.len() as int),
        None => None,
    }
}

fn find_numbered(p: &Option<HlsMediaPlaylist>, sequence: u64) -> (r: Option<HlsSegment>)
    ensures
        opt_segment(r) == numbered(opt_media(*p), sequence),
{
    match p {
        None => None,
        Some(m) => {
            let ghost s = m@.segments;
            let mut n: usize = m.segments.len();
            while n > 0
                invariant
                    s == m@.segments,
                    n <= m.segments@.len(),
                    last_at(s, sequence, s.len() as int) == last_at(s, sequence, n as int),
                    opt_media(*p) == Some(m@),
                decreases n,
            {
                assert(s[n - 1] == m.segments@[n - 1]@);
                if m.segments[n - 1].sequence == sequence {
                    return Some(m.segments[n - 1].duplicate());
                }
                n = n - 1;
            }
            None
        },
    }
}

/// The jobs of the segments from the place `i` on, behind `jobs`: those that were not there
/// before, up to the first without its audio.
pub open spec fn fmp4_jobs(
    input: InputView,
    seen: Seq<Seq<char>>,
    i: int,
    jobs: Seq<Fmp4JobView>,
) -> Seq<Fmp4JobView>
    decreases input.video.segments.len() - i,
{
    if i < 0 || i >= input.video.segments.len() {
        jobs
    } else {
        let video = input.video.segments[i];
        let audio = numbered(input.audio, video.sequence);
        if seen.contains(video.uri) {
            fmp4_jobs(input, seen, i + 1, jobs)
        } else if input.audio is Some && audio is None {
            jobs
        } else {
            fmp4_jobs(
                input,
                seen,
                i + 1,
                jobs.push(
                    Fmp4JobView {
                        sequence: video.sequence,
                        video,
                        audio,
                        subtitle: numbered(input.subtitle, video.sequence),
                    },
                ),
            )
        }
    }
}

/// The fMP4 segments that are fetched next.
pub fn build_fmp4_jobs(selected: &SelectedHlsInput, seen: &[String]) -> (r: Vec<Fmp4Job>)
    ensures
        fmp4_job_views(r@) == fmp4_jobs(selected@, text::texts(seen@), 0, Seq::empty()),
{
    let ghost s = selected@.video.segments;
    let ghost known = text::texts(seen@);
    let mut out: Vec<Fmp4Job> = Vec::new();
    assert(fmp4_job_views(out@) =~= Seq::<Fmp4JobView>::empty());
    let n: usize = selected.video.segments.len();
    let ghost all = fmp4_jobs(selected@, known, 0, Seq::empty());
    let mut i: usize = 0;
    while i < n
        invariant
            n == selected.video.segments@.len(),
            i <= n,
            s == selected@.video.segments,
            known == text::texts(seen@),
            all == fmp4_jobs(selected@, known, 0, Seq::empty()),
            all == fmp4_jobs(selected@, known, i as int, fmp4_job_views(out@)),
        decreases n - i,
    {
        let video: &HlsSegment = &selected.video.segments[i];
        assert(s[i as int] == video@);
        if !text::listed(seen, video.uri.as_str()) {
            let audio: Option<HlsSegment> = find_numbered(&selected.audio, video.sequence);
            if selected.audio.is_some() && audio.is_none() {
                return out;
            }
            let subtitle: Option<HlsSegment> = find_numbered(&selected.subtitle, video.sequence);
            let job = Fmp4Job {
                sequence: video.sequence,
                video: video.duplicate(),
                audio,
                subtitle,
            };
            let ghost before = out@;
            out.push(job);
            assert(fmp4_job_views(out@) =~= fmp4_job_views(before).push(job@));
        }
        i = i + 1;
    }
    out
}

proof fn lemma_jobs_are_matched(
    input: InputView,
    seen: Seq<Seq<char>>,
    i: int,
    jobs: Seq<Fmp4JobView>,
    k: int,
)
    requires
        input.audio is Some,
        0 <= i,
        forall|j: int| 0 <= j < jobs.len() ==> (#[trigger] jobs[j]).audio is Some,
        0 <= k < fmp4_jobs(input, seen, i, jobs).len(),
    ensures
        fmp4_jobs(input, seen, i, jobs)[k].audio is Some,
    decreases input.video.segments.len() - i,
{
    if i < input.video.segments.len() {
        let video = input.video.segments[i];
        let audio = numbered(input.audio, video.sequence);
        if seen.contains(video.uri) {
            lemma_jobs_are_matched(input, seen, i + 1, jobs, k);
        } else if audio is Some {
            lemma_jobs_are_matched(
                input,
                seen,
                i + 1,
                jobs.push(
                    Fmp4JobView {
                        sequence: video.sequence,
                        video,
                        audio,
                        subtitle: numbered(input.subtitle, video.sequence),
                    },
                ),
                k,
            );
        }
    }
}

/// Where a source has an audio playlist, no segment is fetched without the audio of its number.
pub proof fn law_fmp4_jobs_have_audio(input: InputView, seen: Seq<Seq<char>>, k: int)
    requires
        input.audio is Some,
        0 <= k < fmp4_jobs(input, seen, 0, Seq::empty()).len(),
    ensures
        fmp4_jobs(input, seen, 0, Seq::empty())[k].audio is Some,
{
    lemma_jobs_are_matched(input, seen, 0, Seq::empty(), k);
}

proof fn lemma_seen_grows(seen: Seq<Seq<char>>, s: Seq<HlsSegmentView>, next: u64, n: int)
    requires
        0 <= n <= s.len(),
    ensures
        seen.is_prefix_of(with_seen(seen, s, next, n)),
        forall|i: int|
            0 <= i < n && (#[trigger] s[i]).sequence < next ==> with_seen(
                seen,
                s,
                next,
                n,
            ).contains(s[i].uri),
    decreases n,
{
    if n > 0 {
        lemma_seen_grows(seen, s, next, n - 1);
        let before = with_seen(seen, s, next, n - 1);
        let after = with_seen(seen, s, next, n);
        assert forall|x: Seq<char>| before.contains(x) implies after.contains(x) by {
            let k = choose|k: int| 0 <= k < before.len() && before[k] == x;
            assert(after[k] == x);
        }
        if s[n - 1].sequence < next && !before.contains(s[n - 1].uri) {
            assert(after.last() == s[n - 1].uri);
        }
    }
}

/// No segment is fetched twice: what lies before the next number of a cursor is not among the
/// jobs of the same playlist.
pub proof fn law_no_segment_twice(c: CursorView, p: MediaView, next: u64, i: int)
    requires
        0 <= i < p.segments.len(),
        p.segments[i].sequence < next,
    ensures
        c.at(p, next).seen.contains(p.segments[i].uri),
{
    lemma_seen_grows(c.seen, p.segments, next, p.segments.len() as int);
}

proof fn lemma_variant_named(v: Seq<VariantView>, id: Seq<char>, i: int)
    requires
        0 <= i <= v.len(),
    ensures
        match variant_named(v, id, i) {
            Some(k) => i <= k < v.len() && v[k].id == id && forall|j: int|
                i <= j < k ==> (#[trigger] v[j]).id != id,
            None => forall|j: int| i <= j < v.len() ==> (#[trigger] v[j]).id != id,
        },
    decreases v.len() - i,
{
    if i < v.len() && v[i].id != id {
        lemma_variant_named(v, id, i + 1);
    }
}

/// A variant is found by its name, wherever it stands; a name that none has finds none.
pub proof fn law_variant_is_found(v: Seq<VariantView>, id: Seq<char>)
    ensures
        variant_named(v, id, 0) is None <==> forall|j: int|
            0 <= j < v.len() ==> (#[trigger] v[j]).id != id,
        variant_named(v, id, 0) matches Some(k) ==> 0 <= k < v.len() && v[k].id == id,
{
    lemma_variant_named(v, id, 0);
}

proof fn lemma_rendition_in(v: Seq<RenditionView>, group: Seq<char>, default: bool, i: int)
    requires
        0 <= i <= v.len(),
    ensures
        match rendition_in(v, group, default, i) {
            Some(k) => i <= k < v.len() && v[k].group_id == group && (default ==> v[k].is_default),
            None => forall|j: int|
                i <= j < v.len() ==> (#[trigger] v[j]).group_id != group || default
                    && !v[j].is_default,
        },
    decreases v.len() - i,
{
    if i < v.len() {
        lemma_rendition_in(v, group, default, i + 1);
    }
}

proof fn lemma_rendition_named(v: Seq<RenditionView>, id: Seq<char>, i: int)
    requires
        0 <= i <= v.len(),
    ensures
        match rendition_named(v, id, i) {
            Some(k) => i <= k < v.len() && v[k].id == id,
            None => forall|j: int| i <= j < v.len() ==> (#[trigger] v[j]).id != id,
        },
    decreases v.len() - i,
{
    if i < v.len() {
        lemma_rendition_named(v, id, i + 1);
    }
}

/// Of a group a default rendition is taken where there is one, and any else; a group without a
/// rendition has none. A rendition that is named is the one of that name.
pub proof fn law_rendition_is_found(v: Seq<RenditionView>, group: Seq<char>, id: Seq<char>)
    requires
        text::trimmed(id).len() > 0,
    ensures
        rendition_of(v, group, None) is None <==> forall|j: int|
            0 <= j < v.len() ==> (#[trigger] v[j]).group_id != group,
        rendition_of(v, group, None) matches Some(k) ==> 0 <= k < v.len() && v[k].group_id == group
            && ((exists|j: int|
            0 <= j < v.len() && (#[trigger] v[j]).group_id == group && v[j].is_default)
            ==> v[k].is_default),
        rendition_of(v, group, Some(id)) is None <==> forall|j: int|
            0 <= j < v.len() ==> (#[trigger] v[j]).id != id,
        rendition_of(v, group, Some(id)) matches Some(k) ==> 0 <= k < v.len() && v[k].id == id,
{
    lemma_rendition_in(v, group, true, 0);
    lemma_rendition_in(v, group, false, 0);
    lemma_rendition_named(v, id, 0);
}

/// A source that ends is entered at its first segment; one that goes on at its first, or as many
/// segments before its last as are asked for.
pub proof fn law_playlist_is_entered(resume: u64, p: MediaView, publish_delay: int)
    requires
        p.segments.len() > 0,
    ensures
        ({
            let first = p.segments[0].sequence;
            let last = p.segments.last().sequence;
            let r = entry_of(resume, p, publish_delay);
            let asked = live_tuning::backfill_of(segment_span(p), publish_delay);
            &&& resume > first ==> r == resume
            &&& resume <= first && p.end_list ==> r == first
            &&& resume <= first && !p.end_list && last - first >= asked && asked >= 1 ==> last - r
                + 1 == asked
            &&& resume <= first && !p.end_list && last - first < asked ==> r == first
        }),
{
}

proof fn lemma_ts_jobs(input: InputView, known: Seq<Seq<char>>, n: int)
    requires
        0 <= n <= input.video.segments.len(),
    ensures
        ({
            let j = ts_jobs(input, known, n);
            let s = input.video.segments;
            &&& j.len() <= n
            &&& forall|m: int|
                0 <= m < j.len() ==> !known.contains((#[trigger] j[m]).video.uri) && exists|k: int|
                    0 <= k < n && j[m].video == #[trigger] s[k]
            &&& forall|k: int|
                #![trigger s[k]]
                0 <= k < n && !known.contains(s[k].uri) ==> exists|m: int|
                    0 <= m < j.len() && (#[trigger] j[m]).video == s[k]
        }),
    decreases n,
{
    if n > 0 {
        lemma_ts_jobs(input, known, n - 1);
        let s = input.video.segments;
        let b = ts_jobs(input, known, n - 1);
        let j = ts_jobs(input, known, n);
        assert forall|k: int|
            #![trigger s[k]]
            0 <= k < n && !known.contains(s[k].uri) implies exists|m: int|
            0 <= m < j.len() && (#[trigger] j[m]).video == s[k] by {
            if k == n - 1 {
                assert(j[b.len() as int].video == s[k]);
            } else {
                let m = choose|m: int| 0 <= m < b.len() && (#[trigger] b[m]).video == s[k];
                assert(j[m] == b[m]);
            }
        }
        assert forall|m: int| 0 <= m < j.len() implies !known.contains(
            (#[trigger] j[m]).video.uri,
        ) && exists|k: int| 0 <= k < n && j[m].video == #[trigger] s[k] by {
            if m < b.len() {
                assert(j[m] == b[m]);
                let k = choose|k: int| 0 <= k < n - 1 && b[m].video == #[trigger] s[k];
                assert(j[m].video == s[k]);
            } else {
                assert(j[m].video == s[n - 1]);
            }
        }
    }
}

/// Of a TS source every segment that was not there before is fetched, and none that was.
pub proof fn law_new_segments_are_fetched(input: InputView, known: Seq<Seq<char>>)
    ensures
        ({
            let s = input.video.segments;
            let j = ts_jobs(input, known, s.len() as int);
            &&& forall|m: int| 0 <= m < j.len() ==> !known.contains((#[trigger] j[m]).video.uri)
            &&& forall|k: int|
                #![trigger s[k]]
                0 <= k < s.len() && !known.contains(s[k].uri) ==> exists|m: int|
                    0 <= m < j.len() && (#[trigger] j[m]).video == s[k]
        }),
{
    lemma_ts_jobs(input, known, input.video.segments.len() as int);
}

proof fn lemma_last_at(s: Seq<HlsSegmentView>, sequence: u64, n: int)
    requires
        0 <= n <= s.len(),
    ensures
        match last_at(s, sequence, n) {
            Some(x) => x.sequence == sequence && exists|k: int| 0 <= k < n && #[trigger] s[k] == x,
            None => forall|k: int| 0 <= k < n ==> (#[trigger] s[k]).sequence != sequence,
        },
    decreases n,
{
    if n > 0 {
        lemma_last_at(s, sequence, n - 1);
        if s[n - 1].sequence != sequence && last_at(s, sequence, n - 1) is Some {
            let x = last_at(s, sequence, n - 1)->0;
            let k = choose|k: int| 0 <= k < n - 1 && #[trigger] s[k] == x;
            assert(s[k] == x);
        }
    }
}

/// Audio and subtitles of a video segment have its number, and are found wherever there are such.
pub proof fn law_companions_share_number(p: MediaView, sequence: u64)
    ensures
        numbered(Some(p), sequence) matches Some(x) ==> x.sequence == sequence
            && p.segments.contains(x),
        numbered(Some(p), sequence) is None <==> forall|k: int|
            0 <= k < p.segments.len() ==> (#[trigger] p.segments[k]).sequence != sequence,
        numbered(None, sequence) is None,
{
    lemma_last_at(p.segments, sequence, p.segments.len() as int);
}

proof fn lemma_first_at(s: Seq<HlsSegmentView>, sequence: u64, i: int)
    requires
        0 <= i <= s.len(),
    ensures
        match first_at(s, sequence, false, i) {
            Some(k) => i <= k < s.len() && s[k].sequence == sequence,
            None => forall|k: int| i <= k < s.len() ==> (#[trigger] s[k]).sequence != sequence,
        },
    decreases s.len() - i,
{
    if i < s.len() {
        lemma_first_at(s, sequence, i + 1);
    }
}

/// A video segment gets the subtitles of its number, wherever there are such.
pub proof fn law_subtitles_share_number(video: HlsSegmentView, p: MediaView, k: int)
    requires
        0 <= k < p.segments.len(),
        p.segments[k].sequence == video.sequence,
    ensures
        subtitle_for(video, p) matches Some(i) && 0 <= i < p.segments.len()
            && p.segments[i].sequence == video.sequence,
{
    lemma_first_at(p.segments, video.sequence, 0);
}

} // verus!
