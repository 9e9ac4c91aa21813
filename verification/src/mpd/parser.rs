//! A parser for DASH manifests: the tracks with their timelines spread out into segments.

use vstd::prelude::*;

use crate::text;
use crate::time;
use crate::web;
use crate::xml;
use crate::xml::{AttrView, EventView, XmlAttr, XmlEvent};

verus! {

/// Why a manifest is refused: its XML has a fault, for a reason in words.
#[derive(Debug, Clone, PartialEq, Eq)]
pub enum MpdError {
    Xml(String),
}

impl MpdError {
    /// The reason.
    pub open spec fn reason(self) -> Seq<char> {
        match self {
            MpdError::Xml(s) => s@,
        }
    }

    /// The error in words.
    pub fn message(&self) -> (r: String)
        ensures
            r@ == "MPD parse error: "@ + self.reason(),
    {
        let mut out: String = text::clone_text("MPD parse error: ");
        match self {
            MpdError::Xml(s) => text::push_str(&mut out, s.as_str()),
        }
        out
    }
}

/// What a track carries.
#[derive(Debug, Clone, Copy, PartialEq, Eq, Structural)]
pub enum TrackKind {
    Video,
    Audio,
    Subtitle,
    Other,
}

/// One segment of a track.
#[derive(Debug, Clone)]
pub struct SegmentRef {
    pub number: u64,
    pub url: String,
    pub duration_ts: u64,
}

/// What a value of [`SegmentRef`] holds.
pub struct SegmentRefView {
    pub number: u64,
    pub url: Seq<char>,
    pub duration_ts: u64,
}

impl View for SegmentRef {
    type V = SegmentRefView;

    open spec fn view(&self) -> SegmentRefView {
        SegmentRefView { number: self.number, url: self.url@, duration_ts: self.duration_ts }
    }
}

/// What a list of segments holds.
pub open spec fn segment_views(v: Seq<SegmentRef>) -> Seq<SegmentRefView> {
    v.map_values(|s: SegmentRef| s@)
}

impl SegmentRef {
    /// A copy.
    pub fn duplicate(&self) -> (r: Self)
        ensures
            r@ == self@,
    {
        SegmentRef {
            number: self.number,
            url: text::clone_text(self.url.as_str()),
            duration_ts: self.duration_ts,
        }
    }
}

/// One track that can be chosen.
#[derive(Debug, Clone)]
pub struct Representation {
    pub id: String,
    pub kind: TrackKind,
    pub codecs: String,
    pub bandwidth: u64,
    pub width: u32,
    pub height: u32,
    pub lang: String,
    pub timescale: u32,
    pub init_url: String,
    /// The key identifiers that the manifest states for the track.
    pub manifest_kids: Vec<String>,
    pub media_template: String,
    pub start_number: u64,
    pub segments: Vec<SegmentRef>,
    pub total_duration_ts: u64,
}

/// What a value of [`Representation`] holds.
#[verifier::ext_equal]
pub struct RepresentationView {
    pub id: Seq<char>,
    pub kind: TrackKind,
    pub codecs: Seq<char>,
    pub bandwidth: u64,
    pub width: u32,
    pub height: u32,
    pub lang: Seq<char>,
    pub timescale: u32,
    pub init_url: Seq<char>,
    pub manifest_kids: Seq<Seq<char>>,
    pub media_template: Seq<char>,
    pub start_number: u64,
    pub segments: Seq<SegmentRefView>,
    pub total_duration_ts: u64,
}

impl View for Representation {
    type V = RepresentationView;

    open spec fn view(&self) -> RepresentationView {
        RepresentationView {
            id: self.id@,
            kind: self.kind,
            codecs: self.codecs@,
            bandwidth: self.bandwidth,
            width: self.width,
            height: self.height,
            lang: self.lang@,
            timescale: self.timescale,
            init_url: self.init_url@,
            manifest_kids: text::texts(self.manifest_kids@),
            media_template: self.media_template@,
            start_number: self.start_number,
            segments: segment_views(self.segments@),
            total_duration_ts: self.total_duration_ts,
        }
    }
}

fn copy_segments(v: &[SegmentRef]) -> (r: Vec<SegmentRef>)
    ensures
        segment_views(r@) == segment_views(v@),
{
    let mut out: Vec<SegmentRef> = Vec::new();
    for i in 0..v.len()
        invariant
            out@.len() == i,
            forall|j: int| 0 <= j < i ==> (#[trigger] out@[j])@ == v@[j]@,
    {
        out.push(v[i].duplicate());
    }
    assert(segment_views(out@) =~= segment_views(v@));
    out
}

impl Representation {
    /// A copy.
    pub fn duplicate(&self) -> (r: Self)
        ensures
            r@ == self@,
    {
        let r = Representation {
            id: text::clone_text(self.id.as_str()),
            kind: self.kind,
            codecs: text::clone_text(self.codecs.as_str()),
            bandwidth: self.bandwidth,
            width: self.width,
            height: self.height,
            lang: text::clone_text(self.lang.as_str()),
            timescale: self.timescale,
            init_url: text::clone_text(self.init_url.as_str()),
            manifest_kids: text::clone_texts(self.manifest_kids.as_slice()),
            media_template: text::clone_text(self.media_template.as_str()),
            start_number: self.start_number,
            segments: copy_segments(self.segments.as_slice()),
            total_duration_ts: self.total_duration_ts,
        };
        assert(r@ =~= self@);
        r
    }
}

/// What a list of tracks holds.
pub open spec fn representation_views(v: Seq<Representation>) -> Seq<RepresentationView> {
    v.map_values(|r: Representation| r@)
}

/// A manifest.
#[derive(Debug, Clone)]
pub struct MpdInfo {
    pub base_url: String,
    pub representations: Vec<Representation>,
    pub is_dynamic: bool,
}

/// What a value of [`MpdInfo`] holds.
#[verifier::ext_equal]
pub struct MpdView {
    pub base_url: Seq<char>,
    pub representations: Seq<RepresentationView>,
    pub is_dynamic: bool,
}

impl View for MpdInfo {
    type V = MpdView;

    open spec fn view(&self) -> MpdView {
        MpdView {
            base_url: self.base_url@,
            representations: representation_views(self.representations@),
            is_dynamic: self.is_dynamic,
        }
    }
}

// URLs

/// The directory of a manifest: up to the last slash before the query, or nothing.
pub open spec fn base_of(url: Seq<char>) -> Seq<char> {
    let path = text::pieces(url, '?')[0];
    path.take(path.len() - text::after_last(path, '/').len())
}

/// Scheme, host and port of a URL, or nothing where it has no scheme.
pub open spec fn origin_of(url: Seq<char>) -> Seq<char> {
    match text::find_at(url, "://"@, 0) {
        None => Seq::empty(),
        Some(i) => match text::index_from(url, '/', i + 3) {
            Some(j) => url.take(j),
            None => url,
        },
    }
}

/// A path as a URL: a whole URL stays as it is, a path from the root goes behind the origin, and
/// another one behind the base.
pub open spec fn url_of(base: Seq<char>, origin: Seq<char>, path: Seq<char>) -> Seq<char> {
    if web::is_http(path) {
        path
    } else if path.len() > 0 && path[0] == '/' {
        origin + path
    } else {
        base + path
    }
}

/// The value of a `BaseURL` as a prefix: a URL that ends with a slash.
pub open spec fn prefix_of(parent: Seq<char>, origin: Seq<char>, value: Seq<char>) -> Seq<char> {
    let u = url_of(parent, origin, value);
    if u.len() > 0 && u.last() == '/' {
        u
    } else {
        u.push('/')
    }
}

proof fn lemma_after_last_bound(s: Seq<char>, c: char)
    ensures
        text::after_last(s, c).len() <= s.len(),
    decreases s.len(),
{
    match text::index_from(s, c, 0) {
        Some(i) => if 0 <= i < s.len() {
            lemma_after_last_bound(s.skip(i + 1), c);
        },
        None => {},
    }
}

/// The directory of a manifest.
pub fn derive_base(mpd_url: &str) -> (r: String)
    ensures
        r@ == base_of(mpd_url@),
{
    let parts: Vec<Vec<char>> = text::split(text::to_chars(mpd_url).as_slice(), '?');
    let path: &Vec<char> = &parts[0];
    assert(text::char_views(parts@)[0] == path@);
    let tail: Vec<char> = text::behind_last(path.as_slice(), '/');
    proof {
        lemma_after_last_bound(path@, '/');
    }
    let head: &[char] = vstd::slice::slice_subrange(
        path.as_slice(),
        0,
        path.len() - tail.len(),
    );
    assert(head@ =~= path@.take(path@.len() - tail@.len()));
    text::from_chars(head)
}

/// Scheme, host and port of a URL.
pub fn derive_origin(url: &str) -> (r: String)
    ensures
        r@ == origin_of(url@),
{
    let s: Vec<char> = text::to_chars(url);
    let n: usize = s.len();
    proof {
        reveal_strlit("://");
        assert("://"@.len() == 3);
        assert(n == s@.len());
    }
    match text::find(s.as_slice(), "://", 0) {
        None => String::new(),
        Some(i) => match text::index_of(s.as_slice(), '/', i + 3) {
            Some(j) => {
                let head: &[char] = vstd::slice::slice_subrange(s.as_slice(), 0, j);
                assert(head@ =~= s@.take(j as int));
                text::from_chars(head)
            },
            None => text::clone_text(url),
        },
    }
}

/// A path as a URL.
pub fn resolve_url(base: &str, origin: &str, path: &str) -> (r: String)
    ensures
        r@ == url_of(base@, origin@, path@),
{
    let p: Vec<char> = text::to_chars(path);
    if web::is_http_url(p.as_slice()) {
        return text::clone_text(path);
    }
    let mut out: String = if p.len() > 0 && p[0] == '/' {
        text::clone_text(origin)
    } else {
        text::clone_text(base)
    };
    text::push_str(&mut out, path);
    out
}

/// The value of a `BaseURL` as a prefix.
pub fn resolve_base(parent: &str, origin: &str, value: &str) -> (r: String)
    ensures
        r@ == prefix_of(parent@, origin@, value@),
{
    let mut u: String = resolve_url(parent, origin, value);
    let cs: Vec<char> = text::to_chars(u.as_str());
    let n: usize = cs.len();
    if !(n > 0 && cs[n - 1] == '/') {
        u.push('/');
    }
    u
}

/// A whole URL is never changed, and any other path ends the URL made of it.
pub proof fn law_url_keeps_path(base: Seq<char>, origin: Seq<char>, path: Seq<char>)
    ensures
        web::is_http(path) ==> url_of(base, origin, path) == path,
        path.is_suffix_of(url_of(base, origin, path)),
{
    let u = url_of(base, origin, path);
    assert(u.skip(u.len() - path.len()) =~= path);
}

// Kinds

/// Whether one entry of a codec list is a subtitle format.
pub open spec fn is_subtitle_codec(c: Seq<char>) -> bool {
    c == "wvtt"@ || c == "stpp"@ || c == "ttml"@ || c == "webvtt"@ || "stpp."@.is_prefix_of(c)
}

/// Whether a codec list holds a subtitle format.
pub open spec fn has_subtitle_codec(codecs: Seq<char>) -> bool {
    let p = text::pieces(codecs, ',');
    exists|i: int| 0 <= i < p.len() && is_subtitle_codec(text::trimmed(#[trigger] p[i]))
}

/// A text that may be missing, in lower case by ASCII.
pub open spec fn lower_or_empty(s: Option<Seq<char>>) -> Seq<char> {
    match s {
        Some(t) => text::ascii_lowercase(t),
        None => Seq::empty(),
    }
}

/// What a track carries, by its content type, else by its MIME type, else by its codecs.
pub open spec fn kind_of(
    content_type: Option<Seq<char>>,
    mime_type: Option<Seq<char>>,
    codecs: Option<Seq<char>>,
) -> TrackKind {
    let content = lower_or_empty(content_type);
    let mime = lower_or_empty(mime_type);
    if content == "video"@ {
        TrackKind::Video
    } else if content == "audio"@ {
        TrackKind::Audio
    } else if content == "text"@ || content == "subtitle"@ || content == "subtitles"@ {
        TrackKind::Subtitle
    } else if "video"@.is_prefix_of(mime) {
        TrackKind::Video
    } else if "audio"@.is_prefix_of(mime) {
        TrackKind::Audio
    } else if "text"@.is_prefix_of(mime) || text::contains(mime, "ttml"@) || text::contains(
        mime,
        "webvtt"@,
    ) || text::contains(mime, "subtitle"@) {
        TrackKind::Subtitle
    } else if has_subtitle_codec(lower_or_empty(codecs)) {
        TrackKind::Subtitle
    } else {
        TrackKind::Other
    }
}

fn lower(s: Option<&str>) -> (r: Vec<char>)
    ensures
        r@ == lower_or_empty(
            match s {
                Some(t) => Some(t@),
                None => None,
            },
        ),
{
    match s {
        Some(t) => text::to_ascii_lower(text::to_chars(t).as_slice()),
        None => Vec::new(),
    }
}

fn names_subtitles(codecs: &[char]) -> (r: bool)
    ensures
        r == has_subtitle_codec(codecs@),
{
    let parts: Vec<Vec<char>> = text::split(codecs, ',');
    let ghost p = text::pieces(codecs@, ',');
    for i in 0..parts.len()
        invariant
            p == text::pieces(codecs@, ','),
            text::char_views(parts@) == p,
            forall|j: int| 0 <= j < i ==> !is_subtitle_codec(text::trimmed(#[trigger] p[j])),
    {
        assert(p[i as int] == parts@[i as int]@);
        let t: Vec<char> = text::trim(parts[i].as_slice());
        let c: &[char] = t.as_slice();
        if text::is(c, "wvtt") || text::is(c, "stpp") || text::is(c, "ttml") || text::is(
            c,
            "webvtt",
        ) || text::starts_with(c, "stpp.") {
            return true;
        }
    }
    assert(p.len() == parts@.len());
    false
}

/// What a text that may be missing holds.
pub open spec fn opt_str(s: Option<&str>) -> Option<Seq<char>> {
    match s {
        Some(t) => Some(t@),
        None => None,
    }
}

/// What a track carries.
pub fn detect_track_kind(
    content_type: Option<&str>,
    mime_type: Option<&str>,
    codecs: Option<&str>,
) -> (r: TrackKind)
    ensures
        r == kind_of(opt_str(content_type), opt_str(mime_type), opt_str(codecs)),
{
    let content: Vec<char> = lower(content_type);
    let c: &[char] = content.as_slice();
    if text::is(c, "video") {
        return TrackKind::Video;
    }
    if text::is(c, "audio") {
        return TrackKind::Audio;
    }
    if text::is(c, "text") || text::is(c, "subtitle") || text::is(c, "subtitles") {
        return TrackKind::Subtitle;
    }
    let mime: Vec<char> = lower(mime_type);
    let m: &[char] = mime.as_slice();
    if text::starts_with(m, "video") {
        return TrackKind::Video;
    }
    if text::starts_with(m, "audio") {
        return TrackKind::Audio;
    }
    if text::starts_with(m, "text") || text::has(m, "ttml") || text::has(m, "webvtt") || text::has(
        m,
        "subtitle",
    ) {
        return TrackKind::Subtitle;
    }
    if names_subtitles(lower(codecs).as_slice()) {
        return TrackKind::Subtitle;
    }
    TrackKind::Other
}

// Key identifiers

/// `s` without the prefix `p`, if it is there.
pub open spec fn without_prefix(s: Seq<char>, p: Seq<char>) -> Seq<char> {
    match text::behind(s, p) {
        Some(t) => t,
        None => s,
    }
}

/// The 32 lower-case hexadecimal digits of a key identifier written as a UUID, with braces, a URN
/// prefix or `0x` as they come.
pub open spec fn kid_of(value: Seq<char>) -> Option<Seq<char>> {
    let t = text::trimmed(value);
    let a = text::drop_char(text::skip_char(t, '{'), '{');
    let b = text::drop_char(text::skip_char(a, '}'), '}');
    let l = text::ascii_lowercase(b);
    let d = text::without(without_prefix(without_prefix(l, "urn:uuid:"@), "0x"@), '-');
    if d.len() == 32 && text::is_hex(d) {
        Some(d)
    } else {
        None
    }
}

/// `acc` with each of `more` that it does not hold behind it.
pub open spec fn united(acc: Seq<Seq<char>>, more: Seq<Seq<char>>) -> Seq<Seq<char>>
    decreases more.len(),
{
    if more.len() == 0 {
        acc
    } else {
        let a = united(acc, more.drop_last());
        if a.contains(more.last()) {
            a
        } else {
            a.push(more.last())
        }
    }
}

/// ASCII white space as commas.
pub open spec fn comma_for_space(c: char) -> char {
    if c == ' ' || c == '\t' || c == '\n' || c == '\u{c}' || c == '\r' {
        ','
    } else {
        c
    }
}

/// The key identifiers among pieces, each once.
pub open spec fn kids_among(p: Seq<Seq<char>>) -> Seq<Seq<char>>
    decreases p.len(),
{
    if p.len() == 0 {
        Seq::empty()
    } else {
        let a = kids_among(p.drop_last());
        match kid_of(p.last()) {
            Some(k) => united(a, seq![k]),
            None => a,
        }
    }
}

/// The key identifiers of a list divided by ASCII white space or commas.
pub open spec fn kid_list(value: Seq<char>) -> Seq<Seq<char>> {
    kids_among(text::pieces(value.map_values(|c: char| comma_for_space(c)), ','))
}

/// The attributes of an element, each name once.
pub type Attrs = Seq<(Seq<char>, Seq<char>)>;

/// Whether an attribute states key identifiers.
pub open spec fn is_kid_name(key: Seq<char>) -> bool {
    let k = text::ascii_lowercase(key);
    k == "default_kid"@ || ":default_kid"@.is_suffix_of(k)
}

/// The key identifiers that attributes state.
pub open spec fn kids_of(a: Attrs) -> Seq<Seq<char>>
    decreases a.len(),
{
    if a.len() == 0 {
        Seq::empty()
    } else {
        let k = kids_of(a.drop_last());
        if is_kid_name(a.last().0) {
            united(k, kid_list(a.last().1))
        } else {
            k
        }
    }
}

/// A key identifier in its normal form.
pub fn normalize_default_kid(value: &[char]) -> (r: Option<String>)
    ensures
        text::opt_text(r) == kid_of(value@),
{
    let t: Vec<char> = text::trim(value);
    let a: Vec<char> = text::trim_char(t.as_slice(), '{');
    let b: Vec<char> = text::trim_char(a.as_slice(), '}');
    let l: Vec<char> = text::to_ascii_lower(b.as_slice());
    let u: Vec<char> = match text::strip_prefix(l.as_slice(), "urn:uuid:") {
        Some(x) => x,
        None => l,
    };
    let h: Vec<char> = match text::strip_prefix(u.as_slice(), "0x") {
        Some(x) => x,
        None => u,
    };
    let d: Vec<char> = text::remove(h.as_slice(), '-');
    if d.len() == 32 && text::from_hex(d.as_slice()).is_some() {
        Some(text::from_chars(d.as_slice()))
    } else {
        None
    }
}

fn add_unique(target: &mut Vec<String>, value: String)
    ensures
        text::texts(final(target)@) == united(text::texts(old(target)@), seq![value@]),
{
    let ghost before = text::texts(target@);
    proof {
        reveal_with_fuel(united, 2);
        assert(seq![value@].drop_last() =~= Seq::<Seq<char>>::empty());
    }
    if !text::listed(target.as_slice(), value.as_str()) {
        target.push(value);
        assert(text::texts(target@) =~= before.push(value@));
    }
}

/// Adds the texts that are not there yet.
pub fn extend_unique(target: &mut Vec<String>, values: &[String])
    ensures
        text::texts(final(target)@) == united(text::texts(old(target)@), text::texts(values@)),
{
    let ghost acc = text::texts(target@);
    let ghost all = text::texts(values@);
    assert(all.take(0) =~= Seq::<Seq<char>>::empty());
    for i in 0..values.len()
        invariant
            all == text::texts(values@),
            text::texts(target@) == united(acc, all.take(i as int)),
    {
        let ghost part = all.take(i as int + 1);
        assert(part.drop_last() =~= all.take(i as int));
        assert(part.last() == values@[i as int]@);
        let ghost before = text::texts(target@);
        add_unique(target, text::clone_text(values[i].as_str()));
        proof {
            reveal_with_fuel(united, 2);
            let one = seq![values@[i as int]@];
            assert(one.drop_last() =~= Seq::<Seq<char>>::empty());
            assert(united(before, one.drop_last()) == before);
        }
    }
    assert(all.take(all.len() as int) =~= all);
}

/// The key identifiers of a list.
pub fn parse_default_kid_list(value: &str) -> (r: Vec<String>)
    ensures
        text::texts(r@) == kid_list(value@),
{
    let cs: Vec<char> = text::to_chars(value);
    let mut mapped: Vec<char> = Vec::new();
    let ghost want = value@.map_values(|c: char| comma_for_space(c));
    for i in 0..cs.len()
        invariant
            cs@ == value@,
            want == value@.map_values(|c: char| comma_for_space(c)),
            mapped@ == want.take(i as int),
    {
        let c: char = cs[i];
        if c == ' ' || c == '\t' || c == '\n' || c == '\u{c}' || c == '\r' {
            mapped.push(',');
        } else {
            mapped.push(c);
        }
        assert(mapped@ =~= want.take(i as int + 1));
    }
    assert(mapped@ =~= want);
    let parts: Vec<Vec<char>> = text::split(mapped.as_slice(), ',');
    let ghost p = text::pieces(want, ',');
    let mut out: Vec<String> = Vec::new();
    assert(p.take(0) =~= Seq::<Seq<char>>::empty());
    assert(text::texts(out@) =~= Seq::<Seq<char>>::empty());
    for i in 0..parts.len()
        invariant
            text::char_views(parts@) == p,
            text::texts(out@) == kids_among(p.take(i as int)),
    {
        let ghost part = p.take(i as int + 1);
        assert(part.drop_last() =~= p.take(i as int));
        assert(part.last() == parts@[i as int]@);
        if let Some(k) = normalize_default_kid(parts[i].as_slice()) {
            add_unique(&mut out, k);
        }
    }
    assert(p.take(parts@.len() as int) =~= p);
    out
}

// Attributes

/// The place of a name.
pub open spec fn place_of(a: Attrs, name: Seq<char>, i: int) -> Option<int>
    decreases a.len() - i,
{
    if i < 0 || i >= a.len() {
        None
    } else if a[i].0 == name {
        Some(i)
    } else {
        place_of(a, name, i + 1)
    }
}

/// The value of a name.
pub open spec fn attr(a: Attrs, name: Seq<char>) -> Option<Seq<char>> {
    match place_of(a, name, 0) {
        Some(i) => Some(a[i].1),
        None => None,
    }
}

/// The value of a name, or nothing.
pub open spec fn attr_or_empty(a: Attrs, name: Seq<char>) -> Seq<char> {
    match attr(a, name) {
        Some(v) => v,
        None => Seq::empty(),
    }
}

/// The number that the value of a name states.
pub open spec fn attr_number(a: Attrs, name: Seq<char>, max: int) -> Option<int> {
    match attr(a, name) {
        Some(v) => text::parsed_number(v, max),
        None => None,
    }
}

/// `a` with a value for a name.
pub open spec fn with_attr(a: Attrs, key: Seq<char>, value: Seq<char>) -> Attrs {
    match place_of(a, key, 0) {
        Some(i) => a.update(i, (key, value)),
        None => a.push((key, value)),
    }
}

/// The attributes of an element, decoded; those that are not well formed are left out.
pub open spec fn attrs_of(raw: Seq<Option<AttrView>>) -> Attrs
    decreases raw.len(),
{
    if raw.len() == 0 {
        Seq::empty()
    } else {
        let a = attrs_of(raw.drop_last());
        match raw.last() {
            Some(x) => with_attr(a, text::lossy_text(x.key), text::lossy_text(x.value)),
            None => a,
        }
    }
}

struct Attr {
    key: String,
    value: String,
}

spec fn attr_list(v: Seq<Attr>) -> Attrs {
    v.map_values(|a: Attr| (a.key@, a.value@))
}

fn place(a: &[Attr], name: &str) -> (r: Option<usize>)
    ensures
        match r {
            None => place_of(attr_list(a@), name@, 0) is None,
            Some(i) => i < a@.len() && place_of(attr_list(a@), name@, 0) == Some(i as int),
        },
{
    let n: usize = a.len();
    let mut i: usize = 0;
    while i < n
        invariant
            n == a@.len(),
            place_of(attr_list(a@), name@, 0) == place_of(attr_list(a@), name@, i as int),
        decreases n - i,
    {
        if text::same(a[i].key.as_str(), name) {
            return Some(i);
        }
        i = i + 1;
    }
    None
}

fn collect_attrs(raw: &[Option<XmlAttr>]) -> (r: Vec<Attr>)
    ensures
        attr_list(r@) == attrs_of(xml::attr_views(raw@)),
{
    let mut out: Vec<Attr> = Vec::new();
    let ghost all = xml::attr_views(raw@);
    assert(all.take(0) =~= Seq::<Option<AttrView>>::empty());
    assert(attr_list(out@) =~= Seq::<(Seq<char>, Seq<char>)>::empty());
    for i in 0..raw.len()
        invariant
            all == xml::attr_views(raw@),
            attr_list(out@) == attrs_of(all.take(i as int)),
    {
        let ghost part = all.take(i as int + 1);
        assert(part.drop_last() =~= all.take(i as int));
        assert(part.last() == xml::opt_attr(raw@[i as int]));
        if let Some(x) = &raw[i] {
            let key: String = text::from_utf8_lossy(x.key.as_slice());
            let value: String = text::from_utf8_lossy(x.value.as_slice());
            let ghost before = out@;
            let ghost entry = (key@, value@);
            match place(out.as_slice(), key.as_str()) {
                Some(j) => {
                    out.set(j, Attr { key, value });
                    assert(attr_list(out@) =~= attr_list(before).update(j as int, entry));
                },
                None => {
                    out.push(Attr { key, value });
                    assert(attr_list(out@) =~= attr_list(before).push(entry));
                },
            }
        }
    }
    assert(all.take(all.len() as int) =~= all);
    out
}

fn get<'a>(a: &'a [Attr], name: &str) -> (r: Option<&'a str>)
    ensures
        opt_str(r) == attr(attr_list(a@), name@),
{
    match place(a, name) {
        Some(i) => Some(a[i].value.as_str()),
        None => None,
    }
}

fn get_or_empty(a: &[Attr], name: &str) -> (r: String)
    ensures
        r@ == attr_or_empty(attr_list(a@), name@),
{
    match get(a, name) {
        Some(v) => text::clone_text(v),
        None => String::new(),
    }
}

fn get_number(a: &[Attr], name: &str, max: u64) -> (r: Option<u64>)
    ensures
        match r {
            Some(v) => attr_number(attr_list(a@), name@, max as int) == Some(v as int) && v <= max,
            None => attr_number(attr_list(a@), name@, max as int) is None,
        },
{
    match get(a, name) {
        Some(v) => text::parse_number(text::to_chars(v).as_slice(), max),
        None => None,
    }
}

fn default_kids_from_attrs(a: &[Attr]) -> (r: Vec<String>)
    ensures
        text::texts(r@) == kids_of(attr_list(a@)),
{
    let mut out: Vec<String> = Vec::new();
    let ghost all = attr_list(a@);
    assert(all.take(0) =~= Seq::<(Seq<char>, Seq<char>)>::empty());
    assert(text::texts(out@) =~= Seq::<Seq<char>>::empty());
    for i in 0..a.len()
        invariant
            all == attr_list(a@),
            text::texts(out@) == kids_of(all.take(i as int)),
    {
        let ghost part = all.take(i as int + 1);
        assert(part.drop_last() =~= all.take(i as int));
        assert(part.last() == (a@[i as int].key@, a@[i as int].value@));
        let key: Vec<char> = text::to_ascii_lower(text::to_chars(a[i].key.as_str()).as_slice());
        if text::is(key.as_slice(), "default_kid") || text::ends_with(
            key.as_slice(),
            ":default_kid",
        ) {
            let more: Vec<String> = parse_default_kid_list(a[i].value.as_str());
            extend_unique(&mut out, more.as_slice());
        }
    }
    assert(all.take(all.len() as int) =~= all);
    out
}

// Timelines

/// One entry of a timeline: `r + 1` segments of duration `d`, from the time `t` on.
#[derive(Debug, Clone, Copy)]
pub struct TimelineEntry {
    pub t: Option<u64>,
    pub d: u64,
    pub r: u64,
}

/// Where the segments of a track are.
pub struct Source {
    pub base: Seq<char>,
    pub origin: Seq<char>,
    pub media: Seq<char>,
}

impl Source {
    /// Segments go by their time where the template holds `$Time$` and no `$Number$`.
    pub open spec fn by_time(self) -> bool {
        text::contains(self.media, "$Time$"@) && !text::contains(self.media, "$Number$"@)
    }

    /// The segment with a number and a time.
    pub open spec fn segment(self, number: u64, time: u64, d: u64) -> SegmentRefView {
        let path = text::replaced(
            text::replaced(self.media, "$Number$"@, text::decimal(number as int)),
            "$Time$"@,
            text::decimal(time as int),
        );
        SegmentRefView {
            number: if self.by_time() {
                time
            } else {
                number
            },
            url: url_of(self.base, self.origin, path),
            duration_ts: d,
        }
    }
}

/// A timeline that has been spread out up to some segment.
pub struct Spread {
    pub segments: Seq<SegmentRefView>,
    pub number: u64,
    pub time: u64,
    pub total: u64,
}

impl Spread {
    pub open spec fn start(number: u64) -> Self {
        Spread { segments: Seq::empty(), number, time: 0, total: 0 }
    }

    /// After one more segment.
    pub open spec fn with_segment(self, src: Source, d: u64) -> Self {
        Spread {
            segments: self.segments.push(src.segment(self.number, self.time, d)),
            number: time::sum64(self.number, 1),
            time: time::sum64(self.time, d),
            total: time::sum64(self.total, d),
        }
    }

    /// After `n` more segments of one duration.
    pub open spec fn with_run(self, src: Source, d: u64, n: nat) -> Self
        decreases n,
    {
        if n == 0 {
            self
        } else {
            self.with_run(src, d, (n - 1) as nat).with_segment(src, d)
        }
    }

    /// After one more entry. A time that it states holds from there on.
    pub open spec fn with_entry(self, src: Source, e: TimelineEntry) -> Self {
        let s = match e.t {
            Some(t) => Spread { time: t, ..self },
            None => self,
        };
        s.with_run(src, e.d, (e.r + 1) as nat)
    }

    /// The first `n` entries of a timeline.
    pub open spec fn with_entries(
        number: u64,
        src: Source,
        timeline: Seq<TimelineEntry>,
        n: int,
    ) -> Self
        decreases n,
    {
        if n <= 0 {
            Spread::start(number)
        } else {
            Spread::with_entries(number, src, timeline, n - 1).with_entry(src, timeline[n - 1])
        }
    }
}

struct Timeline {
    segments: Vec<SegmentRef>,
    number: u64,
    time: u64,
    total: u64,
}

impl View for Timeline {
    type V = Spread;

    closed spec fn view(&self) -> Spread {
        Spread {
            segments: segment_views(self.segments@),
            number: self.number,
            time: self.time,
            total: self.total,
        }
    }
}

fn number_text(n: u64) -> (r: Vec<char>)
    ensures
        r@ == text::decimal(n as int),
{
    let mut s: String = String::new();
    text::push_decimal(&mut s, n);
    assert(s@ =~= text::decimal(n as int));
    text::to_chars(s.as_str())
}

fn segment_url(base: &str, origin: &str, media: &[char], number: u64, time: u64) -> (r: String)
    ensures
        r@ == (Source { base: base@, origin: origin@, media: media@ }).segment(number, time, 0).url,
{
    proof {
        reveal_strlit("$Number$");
        reveal_strlit("$Time$");
    }
    let numbered: Vec<char> = text::replace(media, "$Number$", number_text(number).as_slice());
    let timed: Vec<char> = text::replace(
        numbered.as_slice(),
        "$Time$",
        number_text(time).as_slice(),
    );
    resolve_url(base, origin, text::from_chars(timed.as_slice()).as_str())
}

fn spread_entry(
    line: &mut Timeline,
    base: &str,
    origin: &str,
    media: &[char],
    by_time: bool,
    e: TimelineEntry,
)
    requires
        by_time == (Source { base: base@, origin: origin@, media: media@ }).by_time(),
    ensures
        final(line)@ == old(line)@.with_entry(
            (Source { base: base@, origin: origin@, media: media@ }),
            e,
        ),
{
    let ghost src = Source { base: base@, origin: origin@, media: media@ };
    if let Some(t) = e.t {
        line.time = t;
    }
    let ghost from = line@;
    let mut left: u128 = e.r as u128 + 1;
    while left > 0
        invariant
            left <= e.r + 1,
            src == (Source { base: base@, origin: origin@, media: media@ }),
            by_time == src.by_time(),
            line@ == from.with_run(src, e.d, (e.r + 1 - left) as nat),
        decreases left,
    {
        let ghost done = line@;
        let url: String = segment_url(base, origin, media, line.number, line.time);
        let number: u64 = if by_time {
            line.time
        } else {
            line.number
        };
        let s = SegmentRef { number, url, duration_ts: e.d };
        let ghost before = line.segments@;
        line.segments.push(s);
        assert(segment_views(line.segments@) =~= segment_views(before).push(s@));
        line.number = time::add64(line.number, 1);
        line.time = time::add64(line.time, e.d);
        line.total = time::add64(line.total, e.d);
        left = left - 1;
        assert(line@ == done.with_segment(src, e.d));
    }
}

/// How the segments of a track are found.
pub struct TemplateView {
    pub init: Seq<char>,
    pub media: Seq<char>,
    pub start_number: u64,
}

/// What a `Representation` element states of itself.
pub struct TrackView {
    pub id: Seq<char>,
    pub codecs: Seq<char>,
    pub bandwidth: u64,
    pub width: u32,
    pub height: u32,
    pub kids: Seq<Seq<char>>,
}

/// A template with the values of a track in it.
pub open spec fn filled(template: Seq<char>, t: TrackView) -> Seq<char> {
    text::replaced(
        text::replaced(template, "$RepresentationID$"@, t.id),
        "$Bandwidth$"@,
        text::decimal(t.bandwidth as int),
    )
}

/// The track that a `Representation` element states inside its set.
pub open spec fn track_of(
    base: Seq<char>,
    origin: Seq<char>,
    t: TrackView,
    template: TemplateView,
    kind: TrackKind,
    lang: Seq<char>,
    timescale: u32,
    timeline: Seq<TimelineEntry>,
    set_kids: Seq<Seq<char>>,
) -> RepresentationView {
    let media = filled(template.media, t);
    let src = Source { base, origin, media };
    let spread = Spread::with_entries(
        template.start_number,
        src,
        timeline,
        timeline.len() as int,
    );
    RepresentationView {
        id: t.id,
        kind,
        codecs: t.codecs,
        bandwidth: t.bandwidth,
        width: t.width,
        height: t.height,
        lang,
        timescale,
        init_url: url_of(base, origin, filled(template.init, t)),
        manifest_kids: if t.kids.len() == 0 {
            set_kids
        } else {
            t.kids
        },
        media_template: url_of(base, origin, media),
        start_number: template.start_number,
        segments: spread.segments,
        total_duration_ts: spread.total,
    }
}

struct SegTemplate {
    init: String,
    media: String,
    start_number: u64,
}

impl View for SegTemplate {
    type V = TemplateView;

    closed spec fn view(&self) -> TemplateView {
        TemplateView {
            init: self.init@,
            media: self.media@,
            start_number: self.start_number,
        }
    }
}

struct RepTmp {
    id: String,
    codecs: String,
    bandwidth: u64,
    width: u32,
    height: u32,
    manifest_kids: Vec<String>,
}

impl View for RepTmp {
    type V = TrackView;

    closed spec fn view(&self) -> TrackView {
        TrackView {
            id: self.id@,
            codecs: self.codecs@,
            bandwidth: self.bandwidth,
            width: self.width,
            height: self.height,
            kids: text::texts(self.manifest_kids@),
        }
    }
}

fn expand_rep_vars(template: &str, rt: &RepTmp) -> (r: Vec<char>)
    ensures
        r@ == filled(template@, rt@),
{
    proof {
        reveal_strlit("$RepresentationID$");
        reveal_strlit("$Bandwidth$");
    }
    let a: Vec<char> = text::replace(
        text::to_chars(template).as_slice(),
        "$RepresentationID$",
        text::to_chars(rt.id.as_str()).as_slice(),
    );
    text::replace(a.as_slice(), "$Bandwidth$", number_text(rt.bandwidth).as_slice())
}

fn build_representation(
    base: &str,
    origin: &str,
    rt: RepTmp,
    tpl: &SegTemplate,
    kind: TrackKind,
    lang: &str,
    timescale: u32,
    timeline: &[TimelineEntry],
    set_kids: &[String],
) -> (r: Representation)
    ensures
        r@ == track_of(
            base@,
            origin@,
            rt@,
            tpl@,
            kind,
            lang@,
            timescale,
            timeline@,
            text::texts(set_kids@),
        ),
{
    let ghost t = rt@;
    let init: Vec<char> = expand_rep_vars(tpl.init.as_str(), &rt);
    let media: Vec<char> = expand_rep_vars(tpl.media.as_str(), &rt);
    let ghost src = Source { base: base@, origin: origin@, media: media@ };
    let by_time: bool = text::has(media.as_slice(), "$Time$") && !text::has(
        media.as_slice(),
        "$Number$",
    );
    let mut line = Timeline {
        segments: Vec::new(),
        number: tpl.start_number,
        time: 0,
        total: 0,
    };
    assert(segment_views(line.segments@) =~= Seq::<SegmentRefView>::empty());
    for i in 0..timeline.len()
        invariant
            src == (Source { base: base@, origin: origin@, media: media@ }),
            by_time == src.by_time(),
            line@ == Spread::with_entries(tpl.start_number, src, timeline@, i as int),
    {
        spread_entry(&mut line, base, origin, media.as_slice(), by_time, timeline[i]);
    }
    let manifest_kids: Vec<String> = if rt.manifest_kids.len() == 0 {
        text::clone_texts(set_kids)
    } else {
        rt.manifest_kids
    };
    assert(t.kids.len() == rt.manifest_kids@.len());
    Representation {
        id: rt.id,
        kind,
        codecs: rt.codecs,
        bandwidth: rt.bandwidth,
        width: rt.width,
        height: rt.height,
        lang: text::clone_text(lang),
        timescale,
        init_url: resolve_url(base, origin, text::from_chars(init.as_slice()).as_str()),
        manifest_kids,
        media_template: resolve_url(base, origin, text::from_chars(media.as_slice()).as_str()),
        start_number: tpl.start_number,
        segments: line.segments,
        total_duration_ts: line.total,
    }
}

proof fn lemma_run_numbers(s: Spread, src: Source, d: u64, n: nat)
    requires
        !src.by_time(),
        s.number + n <= u64::MAX,
    ensures
        s.with_run(src, d, n).number == s.number + n,
        s.with_run(src, d, n).segments.len() == s.segments.len() + n,
        s.segments =~= s.with_run(src, d, n).segments.take(s.segments.len() as int),
        forall|i: int|
            0 <= i < n ==> (#[trigger] s.with_run(src, d, n).segments[s.segments.len() + i]).number
                == s.number + i,
    decreases n,
{
    if n > 0 {
        lemma_run_numbers(s, src, d, (n - 1) as nat);
        let p = s.with_run(src, d, (n - 1) as nat);
        let q = s.with_run(src, d, n);
        assert(q.segments == p.segments.push(src.segment(p.number, p.time, d)));
        assert forall|i: int| 0 <= i < n implies (#[trigger] q.segments[s.segments.len() + i]).number
            == s.number + i by {
            if i < n - 1 {
                assert(p.segments[s.segments.len() + i].number == s.number + i);
            }
        }
    }
}

/// An entry of a timeline with `r` repeats gives `r + 1` segments, numbered one after the other
/// where the template does not go by time.
pub proof fn law_entry_gives_repeats(s: Spread, src: Source, e: TimelineEntry)
    requires
        !src.by_time(),
        s.number + e.r + 1 <= u64::MAX,
    ensures
        s.with_entry(src, e).segments.len() == s.segments.len() + e.r + 1,
        s.with_entry(src, e).number == s.number + e.r + 1,
        forall|i: int|
            0 <= i <= e.r ==> (#[trigger] s.with_entry(src, e).segments[s.segments.len()
                + i]).number == s.number + i,
{
    let t = match e.t {
        Some(t) => Spread { time: t, ..s },
        None => s,
    };
    lemma_run_numbers(t, src, e.d, (e.r + 1) as nat);
}

proof fn lemma_run_times(s: Spread, src: Source, d: u64, n: nat)
    requires
        src.by_time(),
        s.time + n * d <= u64::MAX,
    ensures
        s.with_run(src, d, n).time == s.time + n * d,
        s.with_run(src, d, n).segments.len() == s.segments.len() + n,
        forall|i: int|
            0 <= i < n ==> (#[trigger] s.with_run(src, d, n).segments[s.segments.len() + i]).number
                == s.time + i * d,
    decreases n,
{
    if n == 0 {
        assert(n * d == 0) by (nonlinear_arith)
            requires
                n == 0,
        ;
    } else {
        let m = (n - 1) as nat;
        assert(n * d == m * d + d) by (nonlinear_arith)
            requires
                n == m + 1,
        ;
        lemma_run_times(s, src, d, m);
        let p = s.with_run(src, d, m);
        let q = s.with_run(src, d, n);
        assert(q.segments == p.segments.push(src.segment(p.number, p.time, d)));
        assert forall|i: int| 0 <= i < n implies (#[trigger] q.segments[s.segments.len() + i]).number
            == s.time + i * d by {
            if i < n - 1 {
                assert(p.segments[s.segments.len() + i].number == s.time + i * d);
            }
        }
    }
}

/// Where the template goes by time, the segments of an entry are known by their start: the time
/// that the entry states and then a duration more each.
pub proof fn law_entry_gives_times(s: Spread, src: Source, e: TimelineEntry, t: u64)
    requires
        src.by_time(),
        e.t == Some(t),
        t + (e.r + 1) * e.d <= u64::MAX,
    ensures
        s.with_entry(src, e).segments.len() == s.segments.len() + e.r + 1,
        s.with_entry(src, e).time == t + (e.r + 1) * e.d,
        forall|i: int|
            0 <= i <= e.r ==> (#[trigger] s.with_entry(src, e).segments[s.segments.len()
                + i]).number == t + i * e.d,
{
    lemma_run_times(Spread { time: t, ..s }, src, e.d, (e.r + 1) as nat);
}

// Merging

/// The place of a track.
pub open spec fn track_place(reps: Seq<RepresentationView>, id: Seq<char>, i: int) -> Option<int>
    decreases reps.len() - i,
{
    if i < 0 || i >= reps.len() {
        None
    } else if reps[i].id == id {
        Some(i)
    } else {
        track_place(reps, id, i + 1)
    }
}

/// `a` with the segments and the keys of `b`.
pub open spec fn joined(a: RepresentationView, b: RepresentationView) -> RepresentationView {
    RepresentationView {
        segments: a.segments + b.segments,
        total_duration_ts: time::sum64(a.total_duration_ts, b.total_duration_ts),
        manifest_kids: united(a.manifest_kids, b.manifest_kids),
        ..a
    }
}

/// Tracks with one more, joined to the one of its name if it is there.
pub open spec fn with_track(
    reps: Seq<RepresentationView>,
    r: RepresentationView,
) -> Seq<RepresentationView> {
    match track_place(reps, r.id, 0) {
        Some(i) => reps.update(i, joined(reps[i], r)),
        None => reps.push(r),
    }
}

/// The tracks by name, in the order in which the names come.
pub open spec fn grouped(reps: Seq<RepresentationView>) -> Seq<RepresentationView>
    decreases reps.len(),
{
    if reps.len() == 0 {
        Seq::empty()
    } else {
        with_track(grouped(reps.drop_last()), reps.last())
    }
}

/// The place among the first `j` of `s` behind all numbers up to `number`.
pub open spec fn slot(s: Seq<SegmentRefView>, number: u64, j: int) -> int
    decreases j,
{
    if j <= 0 {
        0
    } else if s[j - 1].number > number {
        slot(s, number, j - 1)
    } else {
        j
    }
}

/// Segments in the order of their numbers; equal ones stay in their order.
pub open spec fn in_order(s: Seq<SegmentRefView>) -> Seq<SegmentRefView>
    decreases s.len(),
{
    if s.len() == 0 {
        s
    } else {
        let t = in_order(s.drop_last());
        t.insert(slot(t, s.last().number, t.len() as int), s.last())
    }
}

/// The first of each run of equal numbers.
pub open spec fn thinned(s: Seq<SegmentRefView>) -> Seq<SegmentRefView>
    decreases s.len(),
{
    if s.len() == 0 {
        s
    } else {
        let t = thinned(s.drop_last());
        if t.len() > 0 && t.last().number == s.last().number {
            t
        } else {
            t.push(s.last())
        }
    }
}

/// A track with its segments in order, each number once.
pub open spec fn tidied(r: RepresentationView) -> RepresentationView {
    RepresentationView { segments: thinned(in_order(r.segments)), ..r }
}

/// The tracks by name, their segments in order.
pub open spec fn merged(reps: Seq<RepresentationView>) -> Seq<RepresentationView> {
    grouped(reps).map_values(|r: RepresentationView| tidied(r))
}

proof fn lemma_slot(s: Seq<SegmentRefView>, number: u64, j: int)
    requires
        0 <= j <= s.len(),
        forall|a: int, b: int| 0 <= a <= b < s.len() ==> s[a].number <= s[b].number,
        forall|a: int| j <= a < s.len() ==> number < s[a].number,
    ensures
        0 <= slot(s, number, j) <= j,
        forall|a: int| 0 <= a < slot(s, number, j) ==> s[a].number <= number,
        forall|a: int| slot(s, number, j) <= a < s.len() ==> number < s[a].number,
    decreases j,
{
    if j > 0 && s[j - 1].number > number {
        lemma_slot(s, number, j - 1);
    }
}

/// Ordering sorts segments by number.
pub proof fn law_in_order_is_sorted(s: Seq<SegmentRefView>)
    ensures
        in_order(s).len() == s.len(),
        forall|a: int, b: int|
            0 <= a <= b < s.len() ==> in_order(s)[a].number <= in_order(s)[b].number,
    decreases s.len(),
{
    if s.len() > 0 {
        let t = in_order(s.drop_last());
        law_in_order_is_sorted(s.drop_last());
        lemma_slot(t, s.last().number, t.len() as int);
    }
}

proof fn lemma_thinned(s: Seq<SegmentRefView>)
    requires
        forall|a: int, b: int| 0 <= a <= b < s.len() ==> s[a].number <= s[b].number,
    ensures
        forall|a: int, b: int|
            0 <= a < b < thinned(s).len() ==> thinned(s)[a].number < thinned(s)[b].number,
        s.len() > 0 ==> thinned(s).len() > 0 && thinned(s).last().number == s.last().number,
        thinned(s).len() <= s.len(),
        forall|a: int|
            0 <= a < s.len() ==> exists|b: int|
                0 <= b < thinned(s).len() && (#[trigger] thinned(s)[b]).number == (
                #[trigger] s[a]).number,
    decreases s.len(),
{
    if s.len() > 0 {
        let p = s.drop_last();
        lemma_thinned(p);
        let t = thinned(p);
        let u = thinned(s);
        if p.len() > 0 {
            assert(p.last().number <= s.last().number);
        }
        assert forall|a: int, b: int| 0 <= a < b < u.len() implies u[a].number < u[b].number by {
            if b == t.len() {
                assert(t[a].number <= t.last().number);
            }
        }
        assert forall|a: int| 0 <= a < s.len() implies exists|b: int|
            0 <= b < u.len() && (#[trigger] u[b]).number == (#[trigger] s[a]).number by {
            if a < p.len() {
                assert(p[a] == s[a]);
                let b = choose|b: int|
                    0 <= b < t.len() && (#[trigger] t[b]).number == p[a].number;
                assert(u[b] == t[b]);
            } else {
                assert(u[u.len() - 1].number == s[a].number);
            }
        }
    }
}

/// The segments of a track come in the order of their numbers, and no number comes twice.
pub proof fn law_segments_strictly_increase(reps: Seq<RepresentationView>, i: int)
    requires
        0 <= i < merged(reps).len(),
    ensures
        forall|a: int, b: int|
            0 <= a < b < merged(reps)[i].segments.len() ==> merged(reps)[i].segments[a].number
                < merged(reps)[i].segments[b].number,
{
    let s = grouped(reps)[i].segments;
    law_in_order_is_sorted(s);
    lemma_thinned(in_order(s));
}

proof fn lemma_track_place(reps: Seq<RepresentationView>, id: Seq<char>, i: int)
    requires
        0 <= i,
    ensures
        match track_place(reps, id, i) {
            Some(k) => i <= k < reps.len() && reps[k].id == id,
            None => forall|k: int| i <= k < reps.len() ==> (#[trigger] reps[k]).id != id,
        },
    decreases reps.len() - i,
{
    if i < reps.len() && reps[i].id != id {
        lemma_track_place(reps, id, i + 1);
    }
}

proof fn lemma_grouped_ids(reps: Seq<RepresentationView>)
    ensures
        forall|a: int, b: int|
            0 <= a < b < grouped(reps).len() ==> grouped(reps)[a].id != grouped(reps)[b].id,
    decreases reps.len(),
{
    if reps.len() > 0 {
        lemma_grouped_ids(reps.drop_last());
        lemma_track_place(grouped(reps.drop_last()), reps.last().id, 0);
    }
}

/// No two tracks of a manifest have one name.
pub proof fn law_track_names_differ(reps: Seq<RepresentationView>, a: int, b: int)
    requires
        0 <= a < b < merged(reps).len(),
    ensures
        merged(reps)[a].id != merged(reps)[b].id,
{
    lemma_grouped_ids(reps);
}

fn sort_segments(v: &[SegmentRef]) -> (r: Vec<SegmentRef>)
    ensures
        segment_views(r@) == in_order(segment_views(v@)),
{
    let ghost all = segment_views(v@);
    let mut out: Vec<SegmentRef> = Vec::new();
    assert(all.take(0) =~= Seq::<SegmentRefView>::empty());
    assert(segment_views(out@) =~= Seq::<SegmentRefView>::empty());
    for i in 0..v.len()
        invariant
            all == segment_views(v@),
            segment_views(out@) == in_order(all.take(i as int)),
    {
        let ghost part = all.take(i as int + 1);
        assert(part.drop_last() =~= all.take(i as int));
        assert(part.last() == v@[i as int]@);
        let s: SegmentRef = v[i].duplicate();
        let ghost t = segment_views(out@);
        let mut j: usize = out.len();
        while j > 0 && out[j - 1].number > s.number
            invariant
                j <= out@.len(),
                t == segment_views(out@),
                slot(t, s.number, t.len() as int) == slot(t, s.number, j as int),
            decreases j,
        {
            assert(t[j - 1] == out@[j - 1]@);
            j = j - 1;
        }
        assert(j > 0 ==> t[j - 1] == out@[j - 1]@);
        assert(slot(t, s.number, j as int) == j);
        let ghost before = out@;
        out.insert(j, s);
        assert(segment_views(out@) =~= t.insert(j as int, s@));
    }
    assert(all.take(all.len() as int) =~= all);
    out
}

fn thin_segments(v: &[SegmentRef]) -> (r: Vec<SegmentRef>)
    ensures
        segment_views(r@) == thinned(segment_views(v@)),
{
    let ghost all = segment_views(v@);
    let mut out: Vec<SegmentRef> = Vec::new();
    assert(all.take(0) =~= Seq::<SegmentRefView>::empty());
    assert(segment_views(out@) =~= Seq::<SegmentRefView>::empty());
    for i in 0..v.len()
        invariant
            all == segment_views(v@),
            segment_views(out@) == thinned(all.take(i as int)),
    {
        let ghost part = all.take(i as int + 1);
        assert(part.drop_last() =~= all.take(i as int));
        assert(part.last() == v@[i as int]@);
        let ghost t = segment_views(out@);
        let n: usize = out.len();
        assert(n > 0 ==> t.last() == out@[n - 1]@);
        if !(n > 0 && out[n - 1].number == v[i].number) {
            let s: SegmentRef = v[i].duplicate();
            out.push(s);
            assert(segment_views(out@) =~= t.push(s@));
        }
    }
    assert(all.take(all.len() as int) =~= all);
    out
}

fn find_track(reps: &[Representation], id: &str) -> (r: Option<usize>)
    ensures
        match r {
            None => track_place(representation_views(reps@), id@, 0) is None,
            Some(i) => i < reps@.len() && track_place(representation_views(reps@), id@, 0) == Some(
                i as int,
            ),
        },
{
    let n: usize = reps.len();
    let mut i: usize = 0;
    while i < n
        invariant
            n == reps@.len(),
            track_place(representation_views(reps@), id@, 0) == track_place(
                representation_views(reps@),
                id@,
                i as int,
            ),
        decreases n - i,
    {
        if text::same(reps[i].id.as_str(), id) {
            return Some(i);
        }
        i = i + 1;
    }
    None
}

fn join_track(a: Representation, b: Representation) -> (r: Representation)
    ensures
        r@ == joined(a@, b@),
{
    let mut r: Representation = a;
    let mut more: Vec<SegmentRef> = b.segments;
    r.segments.append(&mut more);
    assert(segment_views(r.segments@) =~= segment_views(a.segments@) + segment_views(b.segments@));
    r.total_duration_ts = time::add64(r.total_duration_ts, b.total_duration_ts);
    extend_unique(&mut r.manifest_kids, b.manifest_kids.as_slice());
    r
}

/// Joins the tracks of one name and puts their segments in order.
pub fn merge_by_id(reps: Vec<Representation>) -> (r: Vec<Representation>)
    ensures
        representation_views(r@) == merged(representation_views(reps@)),
{
    let ghost all = representation_views(reps@);
    let mut left: Vec<Representation> = reps;
    let mut groups: Vec<Representation> = Vec::new();
    assert(all.take(0) =~= Seq::<RepresentationView>::empty());
    assert(representation_views(groups@) =~= Seq::<RepresentationView>::empty());
    assert(all.skip(0) =~= all);
    let n: usize = left.len();
    for i in 0..n
        invariant
            n == all.len(),
            representation_views(left@) == all.skip(i as int),
            representation_views(groups@) == grouped(all.take(i as int)),
    {
        let ghost part = all.take(i as int + 1);
        assert(part.drop_last() =~= all.take(i as int));
        assert(representation_views(left@).len() == all.skip(i as int).len());
        assert(left@.len() == n - i);
        assert(representation_views(left@)[0] == left@[0]@);
        let ghost rest = left@;
        let r: Representation = left.remove(0);
        assert(part.last() == r@);
        assert(representation_views(left@) =~= all.skip(i as int + 1)) by {
            assert forall|k: int| 0 <= k < left@.len() implies left@[k]@ == all[i + 1 + k] by {
                assert(left@[k] == rest[k + 1]);
                assert(representation_views(rest)[k + 1] == all.skip(i as int)[k + 1]);
            }
        }
        let ghost g = representation_views(groups@);
        match find_track(groups.as_slice(), r.id.as_str()) {
            Some(j) => {
                let ghost before = groups@;
                let a: Representation = groups.remove(j);
                let joined_track: Representation = join_track(a, r);
                groups.insert(j, joined_track);
                assert(representation_views(groups@) =~= g.update(j as int, joined_track@));
            },
            None => {
                groups.push(r);
                assert(representation_views(groups@) =~= g.push(r@));
            },
        }
    }
    assert(all.take(n as int) =~= all);
    let ghost g = representation_views(groups@);
    let mut out: Vec<Representation> = Vec::new();
    let m: usize = groups.len();
    for i in 0..m
        invariant
            m == g.len(),
            g == grouped(all),
            representation_views(groups@) == g.skip(i as int),
            representation_views(out@) == merged(all).take(i as int),
    {
        assert(representation_views(groups@).len() == g.skip(i as int).len());
        assert(groups@.len() == m - i);
        assert(representation_views(groups@)[0] == groups@[0]@);
        let ghost rest = groups@;
        let mut r: Representation = groups.remove(0);
        assert(representation_views(groups@) =~= g.skip(i as int + 1)) by {
            assert forall|k: int| 0 <= k < groups@.len() implies groups@[k]@ == g[i + 1 + k] by {
                assert(groups@[k] == rest[k + 1]);
                assert(representation_views(rest)[k + 1] == g.skip(i as int)[k + 1]);
            }
        }
        let ghost was = r@;
        let sorted: Vec<SegmentRef> = sort_segments(r.segments.as_slice());
        r.segments = thin_segments(sorted.as_slice());
        assert(r@ == tidied(was));
        let ghost before = out@;
        out.push(r);
        assert(representation_views(out@) =~= representation_views(before).push(r@));
        assert(merged(all).take(i as int + 1) =~= merged(all).take(i as int).push(tidied(g[i as int])));
    }
    assert(merged(all).take(m as int) =~= merged(all));
    out
}

// Events

/// What the URL of a manifest says of where it lies.
pub struct Place {
    pub base: Seq<char>,
    pub origin: Seq<char>,
}

/// What has been read of a manifest.
pub struct ManifestState {
    pub is_dynamic: bool,
    pub mpd_base: Option<Seq<char>>,
    pub period_base: Option<Seq<char>>,
    pub in_base_url: bool,
    pub in_period: bool,
    /// Whether the period holds an adaptation set so far.
    pub in_sets: bool,
    pub kind: TrackKind,
    pub lang: Seq<char>,
    pub template: Option<TemplateView>,
    pub timeline: Seq<TimelineEntry>,
    pub timescale: u32,
    pub codecs: Seq<char>,
    pub kids: Seq<Seq<char>>,
    pub reps: Seq<RepresentationView>,
    pub seen: Seq<Seq<char>>,
    pub track: Option<TrackView>,
}

impl ManifestState {
    pub open spec fn start() -> Self {
        ManifestState {
            is_dynamic: false,
            mpd_base: None,
            period_base: None,
            in_base_url: false,
            in_period: false,
            in_sets: false,
            kind: TrackKind::Other,
            lang: Seq::empty(),
            template: None,
            timeline: Seq::empty(),
            timescale: 1,
            codecs: Seq::empty(),
            kids: Seq::empty(),
            reps: Seq::empty(),
            seen: Seq::empty(),
            track: None,
        }
    }

    /// Where segments lie: by the period, else by the manifest, else beside the manifest.
    pub open spec fn base(self, place: Place) -> Seq<char> {
        match self.period_base {
            Some(b) => b,
            None => match self.mpd_base {
                Some(b) => b,
                None => place.base,
            },
        }
    }

    /// What a track carries: what its set does, else by its own codecs.
    pub open spec fn kind_for(self, t: TrackView) -> TrackKind {
        if self.kind == TrackKind::Other {
            kind_of(None, None, Some(t.codecs))
        } else {
            self.kind
        }
    }

    /// After the end of a track. One whose name was seen before belongs to an advertisement and is
    /// passed over, as is one of an unknown kind.
    pub open spec fn with_track(self, t: TrackView, place: Place) -> Self {
        match self.template {
            Some(template) => if self.kind_for(t) != TrackKind::Other && !self.seen.contains(t.id) {
                ManifestState {
                    seen: self.seen.push(t.id),
                    reps: self.reps.push(
                        track_of(
                            self.base(place),
                            place.origin,
                            t,
                            template,
                            self.kind_for(t),
                            self.lang,
                            self.timescale,
                            self.timeline,
                            self.kids,
                        ),
                    ),
                    ..self
                }
            } else {
                self
            },
            None => self,
        }
    }

    /// After the start of an adaptation set.
    pub open spec fn with_set(self, a: Attrs) -> Self {
        ManifestState {
            in_sets: true,
            kind: kind_of(attr(a, "contentType"@), attr(a, "mimeType"@), attr(a, "codecs"@)),
            lang: attr_or_empty(a, "lang"@),
            codecs: attr_or_empty(a, "codecs"@),
            template: None,
            timeline: Seq::empty(),
            timescale: 1,
            kids: Seq::empty(),
            ..self
        }
    }

    /// After the protection of a set or of a track.
    pub open spec fn with_protection(self, a: Attrs) -> Self {
        match self.track {
            Some(t) => ManifestState {
                track: Some(TrackView { kids: united(t.kids, kids_of(a)), ..t }),
                ..self
            },
            None => ManifestState { kids: united(self.kids, kids_of(a)), ..self },
        }
    }

    /// After a segment template.
    pub open spec fn with_template(self, a: Attrs) -> Self {
        ManifestState {
            template: Some(
                TemplateView {
                    init: attr_or_empty(a, "initialization"@),
                    media: attr_or_empty(a, "media"@),
                    start_number: match attr_number(a, "startNumber"@, u64::MAX as int) {
                        Some(n) => n as u64,
                        None => 1,
                    },
                },
            ),
            timescale: match attr_number(a, "timescale"@, u32::MAX as int) {
                Some(n) => n as u32,
                None => self.timescale,
            },
            ..self
        }
    }

    /// After an entry of the timeline.
    pub open spec fn with_timeline(self, a: Attrs) -> Self {
        let t = match attr_number(a, "t"@, u64::MAX as int) {
            Some(n) => Some(n as u64),
            None => None,
        };
        let d = match attr_number(a, "d"@, u64::MAX as int) {
            Some(n) => n as u64,
            None => 0,
        };
        let r = match attr_number(a, "r"@, u64::MAX as int) {
            Some(n) => n as u64,
            None => 0,
        };
        ManifestState { timeline: self.timeline.push(TimelineEntry { t, d, r }), ..self }
    }

    /// What a `Representation` element states.
    pub open spec fn track_view(self, a: Attrs) -> TrackView {
        TrackView {
            id: attr_or_empty(a, "id"@),
            codecs: match attr(a, "codecs"@) {
                Some(c) => c,
                None => self.codecs,
            },
            bandwidth: match attr_number(a, "bandwidth"@, u64::MAX as int) {
                Some(n) => n as u64,
                None => 0,
            },
            width: match attr_number(a, "width"@, u32::MAX as int) {
                Some(n) => n as u32,
                None => 0,
            },
            height: match attr_number(a, "height"@, u32::MAX as int) {
                Some(n) => n as u32,
                None => 0,
            },
            kids: kids_of(a),
        }
    }

    /// After a tag.
    pub open spec fn with_tag(self, tag: Seq<char>, a: Attrs, empty: bool, place: Place) -> Self {
        if tag == "MPD"@ {
            ManifestState { is_dynamic: attr(a, "type"@) == Some("dynamic"@), ..self }
        } else if tag == "Period"@ {
            ManifestState { in_period: true, period_base: None, in_sets: false, ..self }
        } else if tag == "BaseURL"@ {
            ManifestState { in_base_url: self.in_base_url || !empty, ..self }
        } else if tag == "AdaptationSet"@ {
            self.with_set(a)
        } else if tag == "ContentProtection"@ {
            self.with_protection(a)
        } else if tag == "SegmentTemplate"@ {
            self.with_template(a)
        } else if tag == "S"@ {
            self.with_timeline(a)
        } else if tag == "Representation"@ {
            if empty {
                self.with_track(self.track_view(a), place)
            } else {
                ManifestState { track: Some(self.track_view(a)), ..self }
            }
        } else {
            self
        }
    }

    /// After an end tag.
    pub open spec fn with_end(self, tag: Seq<char>, place: Place) -> Self {
        if tag == "Representation"@ {
            match self.track {
                Some(t) => (ManifestState { track: None, ..self }).with_track(t, place),
                None => self,
            }
        } else if tag == "BaseURL"@ {
            ManifestState { in_base_url: false, ..self }
        } else if tag == "Period"@ {
            ManifestState { in_period: false, period_base: None, in_sets: false, ..self }
        } else {
            self
        }
    }

    /// After text: the value of a base URL of the manifest, or of a period before its first set.
    pub open spec fn with_text(self, raw: Seq<u8>, place: Place) -> Self {
        let value = match xml::xml_unescaped(text::lossy_text(raw)) {
            Some(v) => text::trimmed(v),
            None => Seq::empty(),
        };
        if !self.in_base_url || value.len() == 0 {
            self
        } else if self.in_period && !self.in_sets {
            let parent = match self.mpd_base {
                Some(b) => b,
                None => place.base,
            };
            ManifestState {
                period_base: Some(prefix_of(parent, place.origin, value)),
                ..self
            }
        } else if !self.in_period {
            ManifestState {
                period_base: None,
                mpd_base: Some(prefix_of(place.base, place.origin, value)),
                ..self
            }
        } else {
            self
        }
    }

    /// After an event.
    pub open spec fn with_event(self, e: EventView, place: Place) -> Self {
        match e {
            EventView::Start { name, attrs } => self.with_tag(
                text::lossy_text(name),
                attrs_of(attrs),
                false,
                place,
            ),
            EventView::Empty { name, attrs } => self.with_tag(
                text::lossy_text(name),
                attrs_of(attrs),
                true,
                place,
            ),
            EventView::End { name } => self.with_end(text::lossy_text(name), place),
            EventView::Text { raw } => self.with_text(raw, place),
            _ => self,
        }
    }

    /// After the first `n` events, or the reason of the first fault among them. Nothing behind the
    /// end counts.
    pub open spec fn with_events(events: Seq<EventView>, n: int, place: Place) -> Result<
        Self,
        Seq<char>,
    >
        decreases n,
    {
        if n <= 0 {
            Ok(ManifestState::start())
        } else {
            match ManifestState::with_events(events, n - 1, place) {
                Err(e) => Err(e),
                Ok(s) => match events[n - 1] {
                    EventView::Fault { reason } => Err(reason),
                    e => Ok(s.with_event(e, place)),
                },
            }
        }
    }

    pub open spec fn manifest(self, place: Place) -> MpdView {
        MpdView {
            base_url: match self.mpd_base {
                Some(b) => b,
                None => place.base,
            },
            representations: merged(self.reps),
            is_dynamic: self.is_dynamic,
        }
    }
}

/// Where a manifest lies.
pub open spec fn place_of_url(url: Seq<char>) -> Place {
    Place { base: base_of(url), origin: origin_of(url) }
}

/// The manifest that events state, or the reason of their first fault.
pub open spec fn manifest_of(events: Seq<EventView>, url: Seq<char>) -> Result<
    MpdView,
    Seq<char>,
> {
    match ManifestState::with_events(events, events.len() as int, place_of_url(url)) {
        Ok(s) => Ok(s.manifest(place_of_url(url))),
        Err(e) => Err(e),
    }
}

struct MpdReader {
    base: String,
    origin: String,
    is_dynamic: bool,
    mpd_base: Option<String>,
    period_base: Option<String>,
    in_base_url: bool,
    in_period: bool,
    in_sets: bool,
    kind: TrackKind,
    lang: String,
    template: Option<SegTemplate>,
    timeline: Vec<TimelineEntry>,
    timescale: u32,
    codecs: String,
    kids: Vec<String>,
    reps: Vec<Representation>,
    seen: Vec<String>,
    track: Option<RepTmp>,
}

impl View for MpdReader {
    type V = ManifestState;

    closed spec fn view(&self) -> ManifestState {
        ManifestState {
            is_dynamic: self.is_dynamic,
            mpd_base: text::opt_text(self.mpd_base),
            period_base: text::opt_text(self.period_base),
            in_base_url: self.in_base_url,
            in_period: self.in_period,
            in_sets: self.in_sets,
            kind: self.kind,
            lang: self.lang@,
            template: match self.template {
                Some(t) => Some(t@),
                None => None,
            },
            timeline: self.timeline@,
            timescale: self.timescale,
            codecs: self.codecs@,
            kids: text::texts(self.kids@),
            reps: representation_views(self.reps@),
            seen: text::texts(self.seen@),
            track: match self.track {
                Some(t) => Some(t@),
                None => None,
            },
        }
    }
}

impl MpdReader {
    spec fn place(self) -> Place {
        Place { base: self.base@, origin: self.origin@ }
    }

    fn new(url: &str) -> (r: Self)
        ensures
            r.place() == place_of_url(url@),
            r@ == ManifestState::start(),
    {
        let r = MpdReader {
            base: derive_base(url),
            origin: derive_origin(url),
            is_dynamic: false,
            mpd_base: None,
            period_base: None,
            in_base_url: false,
            in_period: false,
            in_sets: false,
            kind: TrackKind::Other,
            lang: String::new(),
            template: None,
            timeline: Vec::new(),
            timescale: 1,
            codecs: String::new(),
            kids: Vec::new(),
            reps: Vec::new(),
            seen: Vec::new(),
            track: None,
        };
        assert(r@.kids =~= Seq::<Seq<char>>::empty());
        assert(r@.seen =~= Seq::<Seq<char>>::empty());
        assert(r@.reps =~= Seq::<RepresentationView>::empty());
        assert(r@.timeline =~= Seq::<TimelineEntry>::empty());
        assert(r@.lang =~= Seq::<char>::empty());
        assert(r@.codecs =~= Seq::<char>::empty());
        r
    }

    fn effective_base(&self) -> (r: String)
        ensures
            r@ == self@.base(self.place()),
    {
        match &self.period_base {
            Some(b) => text::clone_text(b.as_str()),
            None => match &self.mpd_base {
                Some(b) => text::clone_text(b.as_str()),
                None => text::clone_text(self.base.as_str()),
            },
        }
    }

    fn add_track(&mut self, rt: RepTmp)
        ensures
            final(self).place() == old(self).place(),
            final(self)@ == old(self)@.with_track(rt@, old(self).place()),
    {
        let kind: TrackKind = if self.kind == TrackKind::Other {
            detect_track_kind(None, None, Some(rt.codecs.as_str()))
        } else {
            self.kind
        };
        let base: String = self.effective_base();
        if let Some(tpl) = &self.template {
            if kind != TrackKind::Other && !text::listed(self.seen.as_slice(), rt.id.as_str()) {
                let ghost seen = self.seen@;
                let ghost reps = self.reps@;
                let id: String = text::clone_text(rt.id.as_str());
                let rep: Representation = build_representation(
                    base.as_str(),
                    self.origin.as_str(),
                    rt,
                    tpl,
                    kind,
                    self.lang.as_str(),
                    self.timescale,
                    self.timeline.as_slice(),
                    self.kids.as_slice(),
                );
                self.seen.push(id);
                self.reps.push(rep);
                assert(text::texts(self.seen@) =~= text::texts(seen).push(id@));
                assert(representation_views(self.reps@) =~= representation_views(reps).push(rep@));
            }
        }
    }

    fn add_set(&mut self, a: &[Attr])
        ensures
            final(self).place() == old(self).place(),
            final(self)@ == old(self)@.with_set(attr_list(a@)),
    {
        self.in_sets = true;
        self.kind = detect_track_kind(get(a, "contentType"), get(a, "mimeType"), get(a, "codecs"));
        self.lang = get_or_empty(a, "lang");
        self.codecs = get_or_empty(a, "codecs");
        self.template = None;
        self.timeline = Vec::new();
        self.timescale = 1;
        self.kids = Vec::new();
        assert(self@.kids =~= Seq::<Seq<char>>::empty());
        assert(self@.timeline =~= Seq::<TimelineEntry>::empty());
    }

    fn add_protection(&mut self, a: &[Attr])
        ensures
            final(self).place() == old(self).place(),
            final(self)@ == old(self)@.with_protection(attr_list(a@)),
    {
        let kids: Vec<String> = default_kids_from_attrs(a);
        match self.track.take() {
            Some(t) => {
                let mut rt: RepTmp = t;
                extend_unique(&mut rt.manifest_kids, kids.as_slice());
                self.track = Some(rt);
            },
            None => {
                extend_unique(&mut self.kids, kids.as_slice());
            },
        }
    }

    fn add_template(&mut self, a: &[Attr])
        ensures
            final(self).place() == old(self).place(),
            final(self)@ == old(self)@.with_template(attr_list(a@)),
    {
        let start_number: u64 = match get_number(a, "startNumber", u64::MAX) {
            Some(n) => n,
            None => 1,
        };
        if let Some(n) = get_number(a, "timescale", u32::MAX as u64) {
            self.timescale = n as u32;
        }
        self.template = Some(
            SegTemplate {
                init: get_or_empty(a, "initialization"),
                media: get_or_empty(a, "media"),
                start_number,
            },
        );
    }

    fn add_timeline(&mut self, a: &[Attr])
        ensures
            final(self).place() == old(self).place(),
            final(self)@ == old(self)@.with_timeline(attr_list(a@)),
    {
        let t: Option<u64> = get_number(a, "t", u64::MAX);
        let d: u64 = match get_number(a, "d", u64::MAX) {
            Some(n) => n,
            None => 0,
        };
        let r: u64 = match get_number(a, "r", u64::MAX) {
            Some(n) => n,
            None => 0,
        };
        self.timeline.push(TimelineEntry { t, d, r });
    }

    fn track_from(&self, a: &[Attr]) -> (r: RepTmp)
        ensures
            r@ == self@.track_view(attr_list(a@)),
    {
        let codecs: String = match get(a, "codecs") {
            Some(c) => text::clone_text(c),
            None => text::clone_text(self.codecs.as_str()),
        };
        let bandwidth: u64 = match get_number(a, "bandwidth", u64::MAX) {
            Some(n) => n,
            None => 0,
        };
        let width: u32 = match get_number(a, "width", u32::MAX as u64) {
            Some(n) => n as u32,
            None => 0,
        };
        let height: u32 = match get_number(a, "height", u32::MAX as u64) {
            Some(n) => n as u32,
            None => 0,
        };
        RepTmp {
            id: get_or_empty(a, "id"),
            codecs,
            bandwidth,
            width,
            height,
            manifest_kids: default_kids_from_attrs(a),
        }
    }

    fn add_tag(&mut self, tag: &str, a: &[Attr], empty: bool)
        ensures
            final(self).place() == old(self).place(),
            final(self)@ == old(self)@.with_tag(tag@, attr_list(a@), empty, old(self).place()),
    {
        if text::same(tag, "MPD") {
            self.is_dynamic = match get(a, "type") {
                Some(t) => text::same(t, "dynamic"),
                None => false,
            };
        } else if text::same(tag, "Period") {
            self.in_period = true;
            self.period_base = None;
            self.in_sets = false;
        } else if text::same(tag, "BaseURL") {
            if !empty {
                self.in_base_url = true;
            }
        } else if text::same(tag, "AdaptationSet") {
            self.add_set(a);
        } else if text::same(tag, "ContentProtection") {
            self.add_protection(a);
        } else if text::same(tag, "SegmentTemplate") {
            self.add_template(a);
        } else if text::same(tag, "S") {
            self.add_timeline(a);
        } else if text::same(tag, "Representation") {
            let rt: RepTmp = self.track_from(a);
            if empty {
                self.add_track(rt);
            } else {
                self.track = Some(rt);
            }
        }
    }

    fn add_end(&mut self, tag: &str)
        ensures
            final(self).place() == old(self).place(),
            final(self)@ == old(self)@.with_end(tag@, old(self).place()),
    {
        if text::same(tag, "Representation") {
            if let Some(rt) = self.track.take() {
                self.add_track(rt);
            }
        } else if text::same(tag, "BaseURL") {
            self.in_base_url = false;
        } else if text::same(tag, "Period") {
            self.in_period = false;
            self.period_base = None;
            self.in_sets = false;
        }
    }

    fn add_text(&mut self, raw: &[u8])
        ensures
            final(self).place() == old(self).place(),
            final(self)@ == old(self)@.with_text(raw@, old(self).place()),
    {
        if !self.in_base_url {
            return ;
        }
        let decoded: String = text::from_utf8_lossy(raw);
        let value: Vec<char> = match xml::unescape(decoded.as_str()) {
            Some(v) => text::trim(text::to_chars(v.as_str()).as_slice()),
            None => Vec::new(),
        };
        if value.len() == 0 {
            return ;
        }
        let v: String = text::from_chars(value.as_slice());
        if self.in_period && !self.in_sets {
            let parent: String = match &self.mpd_base {
                Some(b) => text::clone_text(b.as_str()),
                None => text::clone_text(self.base.as_str()),
            };
            self.period_base = Some(
                resolve_base(parent.as_str(), self.origin.as_str(), v.as_str()),
            );
        } else if !self.in_period {
            self.period_base = None;
            self.mpd_base = Some(
                resolve_base(self.base.as_str(), self.origin.as_str(), v.as_str()),
            );
        }
    }

    fn add_event(&mut self, e: &XmlEvent)
        ensures
            final(self).place() == old(self).place(),
            final(self)@ == old(self)@.with_event(e@, old(self).place()),
    {
        match e {
            XmlEvent::Start { name, attrs } => {
                let tag: String = text::from_utf8_lossy(name.as_slice());
                let a: Vec<Attr> = collect_attrs(attrs.as_slice());
                self.add_tag(tag.as_str(), a.as_slice(), false);
            },
            XmlEvent::Empty { name, attrs } => {
                let tag: String = text::from_utf8_lossy(name.as_slice());
                let a: Vec<Attr> = collect_attrs(attrs.as_slice());
                self.add_tag(tag.as_str(), a.as_slice(), true);
            },
            XmlEvent::End { name } => {
                let tag: String = text::from_utf8_lossy(name.as_slice());
                self.add_end(tag.as_str());
            },
            XmlEvent::Text { raw } => {
                self.add_text(raw.as_slice());
            },
            _ => {},
        }
    }
}

proof fn lemma_fault_stays(events: Seq<EventView>, i: int, n: int, place: Place)
    requires
        0 <= i <= n,
        ManifestState::with_events(events, i, place) is Err,
    ensures
        ManifestState::with_events(events, n, place) == ManifestState::with_events(events, i, place),
    decreases n - i,
{
    if i < n {
        lemma_fault_stays(events, i, n - 1, place);
    }
}

/// The manifest that the events of a document state. `mpd_url` is where it was fetched from.
pub fn parse_events(events: &[XmlEvent], mpd_url: &str) -> (r: Result<MpdInfo, MpdError>)
    ensures
        match r {
            Ok(m) => manifest_of(xml::event_views(events@), mpd_url@) == Ok::<MpdView, Seq<char>>(
                m@,
            ),
            Err(e) => manifest_of(xml::event_views(events@), mpd_url@) == Err::<MpdView, Seq<char>>(
                e.reason(),
            ),
        },
{
    let ghost all = xml::event_views(events@);
    let ghost place = place_of_url(mpd_url@);
    let mut reader: MpdReader = MpdReader::new(mpd_url);
    for i in 0..events.len()
        invariant
            all == xml::event_views(events@),
            place == place_of_url(mpd_url@),
            reader.place() == place,
            ManifestState::with_events(all, i as int, place) == Ok::<ManifestState, Seq<char>>(
                reader@,
            ),
    {
        assert(all[i as int] == events@[i as int]@);
        if let XmlEvent::Fault { reason } = &events[i] {
            proof {
                lemma_fault_stays(all, i as int + 1, all.len() as int, place);
            }
            return Err(MpdError::Xml(text::clone_text(reason.as_str())));
        }
        reader.add_event(&events[i]);
    }
    let base_url: String = match reader.mpd_base {
        Some(b) => b,
        None => reader.base,
    };
    let is_dynamic: bool = reader.is_dynamic;
    let representations: Vec<Representation> = merge_by_id(reader.reps);
    Ok(MpdInfo { base_url, representations, is_dynamic })
}

/// Reads a manifest that was fetched from `mpd_url`.
pub fn parse_mpd(content: &str, mpd_url: &str) -> (r: Result<MpdInfo, MpdError>)
    ensures
        ({
            let m = manifest_of(xml::read_events(xml::xml_events(content@, true)), mpd_url@);
            match r {
                Ok(v) => m == Ok::<MpdView, Seq<char>>(v@),
                Err(e) => m == Err::<MpdView, Seq<char>>(e.reason()),
            }
        }),
{
    let events: Vec<XmlEvent> = xml::read_document(content, true);
    parse_events(events.as_slice(), mpd_url)
}

} // verus!
