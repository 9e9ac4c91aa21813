//! Requests for playlists and segments. Segments go out under the names of pictures and texts.

use vstd::prelude::*;

use crate::task::{RunMode, TaskState};
use crate::text;

verus! {

/// Milliseconds that the first request of a task on demand waits for a segment.
pub const ON_DEMAND_INITIAL_WAIT_MS: u64 = 4_000;

/// Milliseconds between two looks.
pub const ON_DEMAND_INITIAL_WAIT_STEP_MS: u64 = 200;

/// The query of a playlist.
#[derive(Debug)]
pub struct PlaylistQuery {
    /// What goes before the names of segments in place of the address of this service.
    pub url: Option<String>,
}

/// The address of a segment.
#[derive(Debug)]
pub struct SegPath {
    pub id: String,
    pub filename: String,
}

/// The address of this service, by the headers of a request.
pub open spec fn host_of(host: Option<Seq<char>>, proto: Option<Seq<char>>) -> Seq<char> {
    (match proto {
        Some(p) => p,
        None => "http"@,
    }) + "://"@ + (match host {
        Some(h) => h,
        None => "localhost"@,
    })
}

/// The address of this service, by the headers of a request.
pub fn host_prefix(host: Option<&str>, proto: Option<&str>) -> (r: String)
    ensures
        r@ == host_of(text::ref_text(host), text::ref_text(proto)),
{
    let mut out: String = match proto {
        Some(p) => text::clone_text(p),
        None => text::clone_text("http"),
    };
    text::push_str(&mut out, "://");
    match host {
        Some(h) => {
            text::push_str(&mut out, h);
        },
        None => {
            text::push_str(&mut out, "localhost");
        },
    }
    out
}

/// A text without the characters `c` at its end.
pub open spec fn without_end(s: Seq<char>, c: char) -> Seq<char>
    decreases s.len(),
{
    if s.len() > 0 && s.last() == c {
        without_end(s.drop_last(), c)
    } else {
        s
    }
}

/// What goes before the names of the segments of a task: what the query says, or else the address
/// of this service.
pub open spec fn prefix_of(
    url: Option<Seq<char>>,
    host: Option<Seq<char>>,
    proto: Option<Seq<char>>,
    id: Seq<char>,
) -> Seq<char> {
    match url {
        Some(u) => without_end(u, '/'),
        None => host_of(host, proto) + "/p/"@ + id,
    }
}

impl PlaylistQuery {
    /// What goes before the names of the segments of a task.
    pub fn prefix(&self, host: Option<&str>, proto: Option<&str>, id: &str) -> (r: String)
        ensures
            r@ == prefix_of(
                text::opt_text(self.url),
                text::ref_text(host),
                text::ref_text(proto),
                id@,
            ),
    {
        match &self.url {
            Some(u) => {
                let c: Vec<char> = text::to_chars(u.as_str());
                let mut n: usize = c.len();
                assert(c@.take(n as int) =~= u@);
                while n > 0 && c[n - 1] == '/'
                    invariant
                        n <= c@.len(),
                        c@ == u@,
                        without_end(u@, '/') == without_end(c@.take(n as int), '/'),
                    decreases n,
                {
                    assert(c@.take(n as int).drop_last() =~= c@.take(n - 1));
                    n = n - 1;
                }
                assert(n > 0 ==> c@.take(n as int).last() == c@[n - 1]);
                let head: &[char] = vstd::slice::slice_subrange(c.as_slice(), 0, n);
                assert(head@ =~= c@.take(n as int));
                text::from_chars(head)
            },
            None => {
                let mut out: String = host_prefix(host, proto);
                text::push_str(&mut out, "/p/");
                text::push_str(&mut out, id);
                out
            },
        }
    }
}

/// Whether the answer to a request waits for the first segment, `waited_ms` after it came: only
/// that of a task on demand that is under way.
pub fn waits_for_output(
    run_mode: RunMode,
    state: TaskState,
    segment_count: usize,
    waited_ms: u64,
) -> (r: bool)
    ensures
        r == (run_mode == RunMode::OnDemand && segment_count == 0 && (state == TaskState::Running
            || state == TaskState::Parsing) && waited_ms < ON_DEMAND_INITIAL_WAIT_MS),
{
    run_mode.is_on_demand() && segment_count == 0 && match state {
        TaskState::Running => true,
        TaskState::Parsing => true,
        _ => false,
    } && waited_ms < ON_DEMAND_INITIAL_WAIT_MS
}

/// What a name asks for.
#[derive(Debug, Clone, Copy, PartialEq, Eq, Structural)]
pub enum SegmentRequest {
    Picture(u64),
    Text(u64),
    Unknown,
}

/// The number between `before` and `behind`.
pub open spec fn number_between(
    name: Seq<char>,
    before: Seq<char>,
    behind: Seq<char>,
) -> Option<u64> {
    match text::behind(name, before) {
        None => None,
        Some(rest) => match text::before_suffix(rest, behind) {
            None => None,
            Some(n) => match text::parsed_number(n, u64::MAX as int) {
                Some(v) => Some(v as u64),
                None => None,
            },
        },
    }
}

fn read_number(name: &[char], before: &str, behind: &str) -> (r: Option<u64>)
    ensures
        r == number_between(name@, before@, behind@),
{
    match text::strip_prefix(name, before) {
        None => None,
        Some(rest) => match text::strip_suffix(rest.as_slice(), behind) {
            None => None,
            Some(n) => text::parse_number(n.as_slice(), u64::MAX),
        },
    }
}

/// What a name asks for: `picture-1.jpeg` is a segment, `xyz-1.txt` its subtitles.
pub open spec fn request_of(name: Seq<char>) -> SegmentRequest {
    match number_between(name, "picture-"@, ".jpeg"@) {
        Some(n) => SegmentRequest::Picture(n),
        None => match number_between(name, "xyz-"@, ".txt"@) {
            Some(n) => SegmentRequest::Text(n),
            None => SegmentRequest::Unknown,
        },
    }
}

impl SegPath {
    /// What the name asks for.
    pub fn request(&self) -> (r: SegmentRequest)
        ensures
            r == request_of(self.filename@),
    {
        let c: Vec<char> = text::to_chars(self.filename.as_str());
        if let Some(n) = read_number(c.as_slice(), "picture-", ".jpeg") {
            return SegmentRequest::Picture(n);
        }
        match read_number(c.as_slice(), "xyz-", ".txt") {
            Some(n) => SegmentRequest::Text(n),
            None => SegmentRequest::Unknown,
        }
    }
}

/// The names under which playlists list segments and subtitles ask for those.
pub proof fn law_listed_names_are_served(n: u64)
    ensures
        request_of("picture-"@ + text::decimal(n as int) + ".jpeg"@) == SegmentRequest::Picture(n),
        request_of("xyz-"@ + text::decimal(n as int) + ".txt"@) == SegmentRequest::Text(n),
{
    reveal_strlit("picture-");
    reveal_strlit("xyz-");
    text::law_decimal_round_trip(n as int);
    lemma_number_between("picture-"@, n, ".jpeg"@);
    lemma_number_between("xyz-"@, n, ".txt"@);
    let name = "xyz-"@ + text::decimal(n as int) + ".txt"@;
    assert(name[0] == 'x');
    assert(!"picture-"@.is_prefix_of(name));
}

proof fn lemma_number_between(before: Seq<char>, n: u64, behind: Seq<char>)
    ensures
        number_between(before + text::decimal(n as int) + behind, before, behind) == Some(n),
{
    let d = text::decimal(n as int);
    let name = before + d + behind;
    assert(before.is_prefix_of(name));
    assert(name.skip(before.len() as int) =~= d + behind);
    assert(behind.is_suffix_of(d + behind));
    assert((d + behind).take((d + behind).len() - behind.len()) =~= d);
    text::law_decimal_round_trip(n as int);
    assert(text::parsed_number(d, u64::MAX as int) == Some(n as int));
}

/// How the subtitles of a task are named: by their label, where there is one.
pub fn subtitle_name(label: &str) -> (r: (String, String))
    ensures
        r.0@ == (if label@.len() == 0 {
            "Subtitles"@
        } else {
            label@
        }),
        r.1@ == (if label@.len() == 0 {
            "und"@
        } else {
            label@
        }),
{
    if text::to_chars(label).len() == 0 {
        (text::clone_text("Subtitles"), text::clone_text("und"))
    } else {
        (text::clone_text(label), text::clone_text(label))
    }
}

} // verus!
