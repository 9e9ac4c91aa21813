//! Which requests are let in.

use vstd::prelude::*;

use crate::config::AuthConfig;
use crate::text;
use crate::web;
use crate::web::QueryPair;

verus! {

/// Whether a pair of a query states the key.
pub open spec fn states_key(p: (Seq<char>, Seq<char>), key: Seq<char>) -> bool {
    p.0 == "key"@ && p.1 == key
}

/// Whether the header or the query of a request states the key. Nothing is let in where no key is
/// set.
pub open spec fn is_admitted(
    key: Seq<char>,
    header: Option<Seq<char>>,
    query: Seq<(Seq<char>, Seq<char>)>,
) -> bool {
    &&& key.len() > 0
    &&& header == Some(key) || exists|i: int|
        0 <= i < query.len() && states_key(#[trigger] query[i], key)
}

/// Whether a request with this header and these pairs in its query is let in.
pub fn admits_pairs(auth: &AuthConfig, header: Option<&str>, query: &[QueryPair]) -> (r: bool)
    ensures
        r == is_admitted(
            text::trimmed(auth.key@),
            text::ref_text(header),
            web::pair_views(query@),
        ),
{
    let ghost pairs = web::pair_views(query@);
    if let Some(h) = header {
        if auth.admits(h) {
            return true;
        }
    }
    for i in 0..query.len()
        invariant
            pairs == web::pair_views(query@),
            text::trimmed(auth.key@).len() > 0 ==> text::ref_text(header) != Some(
                text::trimmed(auth.key@),
            ),
            text::trimmed(auth.key@).len() > 0 ==> forall|j: int|
                0 <= j < i ==> !states_key(#[trigger] pairs[j], text::trimmed(auth.key@)),
    {
        assert(pairs[i as int] == (query@[i as int].name@, query@[i as int].value@));
        if text::same(query[i].name.as_str(), "key") && auth.admits(query[i].value.as_str()) {
            assert(states_key(pairs[i as int], text::trimmed(auth.key@)));
            return true;
        }
    }
    false
}

/// Whether a request with this header and this query is let in.
pub fn admits_request(auth: &AuthConfig, header: Option<&str>, query: Option<&str>) -> (r: bool)
    ensures
        r == is_admitted(
            text::trimmed(auth.key@),
            text::ref_text(header),
            match query {
                Some(q) => web::form_pairs(q@),
                None => Seq::empty(),
            },
        ),
{
    let pairs: Vec<QueryPair> = match query {
        Some(q) => web::parse_query(q),
        None => Vec::new(),
    };
    assert(query is None ==> web::pair_views(pairs@) =~= Seq::<(Seq<char>, Seq<char>)>::empty());
    admits_pairs(auth, header, pairs.as_slice())
}

/// Where no key is set, no request is let in.
pub proof fn law_no_key_admits_nothing(
    header: Option<Seq<char>>,
    query: Seq<(Seq<char>, Seq<char>)>,
)
    ensures
        !is_admitted(Seq::empty(), header, query),
{
}

} // verus!
