//! Absolute URLs.

use vstd::prelude::*;

use crate::text;

verus! {

/// Why `url::Url::parse` refuses a text, in its words; `None` where it accepts it.
pub uninterp spec fn url_fault(s: Seq<char>) -> Option<Seq<char>>;

/// What `url::Url::join` makes of a path on a base, or why it refuses them, in its words.
pub uninterp spec fn url_joined(base: Seq<char>, path: Seq<char>) -> Result<Seq<char>, Seq<char>>;

/// Calls `url::Url::parse` and writes an error as text. Claimed: the result depends on the text
/// alone.
#[verifier::external_body]
fn find_url_fault(s: &str) -> (r: Option<String>)
    ensures
        text::opt_text(r) == url_fault(s@),
{
    url::Url::parse(s).err().map(|e| e.to_string())
}

/// The text of a result and of its error.
pub open spec fn result_text(r: Result<String, String>) -> Result<Seq<char>, Seq<char>> {
    match r {
        Ok(s) => Ok(s@),
        Err(e) => Err(e@),
    }
}

/// Calls `url::Url::join` on a parsed base and writes the result or the error as text. Claimed:
/// the result depends on the two texts alone.
#[verifier::external_body]
fn url_join(base: &str, path: &str) -> (r: Result<String, String>)
    ensures
        result_text(r) == url_joined(base@, path@),
{
    url::Url::parse(base)
        .and_then(|b| b.join(path))
        .map(|u| u.to_string())
        .map_err(|e| e.to_string())
}

/// The host that `url::Url::host_str` finds in a text, if it is a URL with one.
pub uninterp spec fn url_host(s: Seq<char>) -> Option<Seq<char>>;

/// Calls `url::Url::parse` and `url::Url::host_str`. Claimed: the result depends on the text alone.
#[verifier::external_body]
pub(crate) fn host_of(s: &str) -> (r: Option<String>)
    ensures
        text::opt_text(r) == url_host(s@),
{
    url::Url::parse(s).ok().and_then(|u| u.host_str().map(str::to_owned))
}

/// A name and its value in the query of a URL.
#[derive(Debug)]
pub struct QueryPair {
    pub name: String,
    pub value: String,
}

/// What a list of pairs holds.
pub open spec fn pair_views(v: Seq<QueryPair>) -> Seq<(Seq<char>, Seq<char>)> {
    v.map_values(|p: QueryPair| (p.name@, p.value@))
}

/// The pairs that `url::form_urlencoded::parse` finds in the bytes of a text, in their order.
pub uninterp spec fn form_pairs(s: Seq<char>) -> Seq<(Seq<char>, Seq<char>)>;

/// Calls `url::form_urlencoded::parse` on the bytes of a text. Claimed: the pairs depend on the
/// text alone.
#[verifier::external_body]
pub(crate) fn parse_query(s: &str) -> (r: Vec<QueryPair>)
    ensures
        pair_views(r@) == form_pairs(s@),
{
    url::form_urlencoded::parse(s.as_bytes())
        .into_owned()
        .map(|p| QueryPair { name: p.0, value: p.1 })
        .collect()
}

/// Why a path cannot be resolved: the base or the path is refused, for a reason in words.
#[derive(Debug, Clone, PartialEq, Eq)]
pub enum UrlError {
    Base(String),
    Path(String),
}

/// What a value of [`UrlError`] holds.
pub enum UrlErrorView {
    Base(Seq<char>),
    Path(Seq<char>),
}

impl View for UrlError {
    type V = UrlErrorView;

    open spec fn view(&self) -> UrlErrorView {
        match self {
            UrlError::Base(s) => UrlErrorView::Base(s@),
            UrlError::Path(s) => UrlErrorView::Path(s@),
        }
    }
}

/// Whether a text is a whole HTTP URL.
pub open spec fn is_http(s: Seq<char>) -> bool {
    "http://"@.is_prefix_of(s) || "https://"@.is_prefix_of(s)
}

/// A path relative to a base; a whole HTTP URL stays as it is.
pub open spec fn resolved(base: Seq<char>, path: Seq<char>) -> Result<Seq<char>, UrlErrorView> {
    if is_http(path) {
        Ok(path)
    } else if let Some(e) = url_fault(base) {
        Err(UrlErrorView::Base(e))
    } else {
        match url_joined(base, path) {
            Ok(u) => Ok(u),
            Err(e) => Err(UrlErrorView::Path(e)),
        }
    }
}

/// Whether a text is a whole HTTP URL.
pub fn is_http_url(s: &[char]) -> (r: bool)
    ensures
        r == is_http(s@),
{
    text::starts_with(s, "http://") || text::starts_with(s, "https://")
}

/// Resolves a path against a base.
pub fn resolve(base: &str, path: &[char]) -> (r: Result<String, UrlError>)
    ensures
        match r {
            Ok(u) => resolved(base@, path@) == Ok::<Seq<char>, UrlErrorView>(u@),
            Err(e) => resolved(base@, path@) == Err::<Seq<char>, UrlErrorView>(e@),
        },
{
    let p: String = text::from_chars(path);
    if is_http_url(path) {
        return Ok(p);
    }
    if let Some(e) = find_url_fault(base) {
        return Err(UrlError::Base(e));
    }
    match url_join(base, p.as_str()) {
        Ok(u) => Ok(u),
        Err(e) => Err(UrlError::Path(e)),
    }
}

} // verus!
