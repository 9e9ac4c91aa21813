//! Content keys: those that were given, and those that a service hands out.

use vstd::prelude::*;

use super::manager::KeyMode;
use crate::crypto::cenc;
use crate::crypto::cenc::{KeyStore, KeyStoreView};
use crate::text;

verus! {

/// The 32 lower-case hexadecimal digits of a key identifier.
pub open spec fn kid_of(kid: Seq<char>) -> Option<Seq<char>> {
    let s = text::skip_text(text::skip_text(text::trimmed(kid), "0x"@), "0X"@);
    let k = text::without(text::ascii_lowercase(s), '-');
    if k.len() == 32 && text::is_hex(k) {
        Some(k)
    } else {
        None
    }
}

/// A key identifier in its normal form.
pub fn normalize_kid(kid: &str) -> (r: Option<String>)
    ensures
        text::opt_text(r) == kid_of(kid@),
{
    proof {
        reveal_strlit("0x");
        reveal_strlit("0X");
    }
    let t: Vec<char> = text::trim(text::to_chars(kid).as_slice());
    let s: Vec<char> = text::skip_repeated(text::skip_repeated(t, "0x"), "0X");
    let k: Vec<char> = text::remove(text::to_ascii_lower(s.as_slice()).as_slice(), '-');
    if k.len() == 32 && text::from_hex(k.as_slice()).is_some() {
        Some(text::from_chars(k.as_slice()))
    } else {
        None
    }
}

/// The place of a text in an ordered list from `i` on: before the first that comes behind it.
pub open spec fn slot(list: Seq<Seq<char>>, k: Seq<char>, i: int) -> int
    decreases list.len() - i,
{
    if i < 0 || i >= list.len() {
        i
    } else if text::less(k, list[i]) {
        i
    } else {
        slot(list, k, i + 1)
    }
}

/// An ordered list with one more text, if it is not there yet.
pub open spec fn with_kid(list: Seq<Seq<char>>, k: Seq<char>) -> Seq<Seq<char>> {
    if list.contains(k) {
        list
    } else {
        list.insert(slot(list, k, 0), k)
    }
}

/// The key identifiers of a list, each once, in order.
pub open spec fn unique_kids(kids: Seq<Seq<char>>) -> Seq<Seq<char>>
    decreases kids.len(),
{
    if kids.len() == 0 {
        Seq::empty()
    } else {
        let u = unique_kids(kids.drop_last());
        match kid_of(kids.last()) {
            Some(k) => with_kid(u, k),
            None => u,
        }
    }
}

/// Whether a list is in order and holds nothing twice.
pub open spec fn in_order(list: Seq<Seq<char>>) -> bool {
    forall|i: int, j: int| 0 <= i < j < list.len() ==> text::less(list[i], list[j])
}

proof fn lemma_slot(list: Seq<Seq<char>>, k: Seq<char>, i: int)
    requires
        0 <= i <= list.len(),
        in_order(list),
        !list.contains(k),
        forall|j: int| 0 <= j < i ==> text::less(list[j], k),
    ensures
        i <= slot(list, k, i) <= list.len(),
        forall|j: int| 0 <= j < slot(list, k, i) ==> text::less(list[j], k),
        forall|j: int| slot(list, k, i) <= j < list.len() ==> text::less(k, list[j]),
    decreases list.len() - i,
{
    if i < list.len() {
        if text::less(k, list[i]) {
            assert forall|j: int| i <= j < list.len() implies text::less(k, list[j]) by {
                if j > i {
                    text::lemma_less_is_transitive(k, list[i], list[j]);
                }
            }
        } else {
            assert(list.contains(list[i]));
            text::lemma_less_is_total(k, list[i]);
            lemma_slot(list, k, i + 1);
        }
    }
}

/// The key identifiers that are asked for come in order, each once, and none is left out.
pub proof fn law_unique_kids_are_ordered(kids: Seq<Seq<char>>)
    ensures
        in_order(unique_kids(kids)),
        forall|i: int|
            0 <= i < kids.len() ==> (kid_of(#[trigger] kids[i]) matches Some(k) ==> unique_kids(
                kids,
            ).contains(k)),
    decreases kids.len(),
{
    if kids.len() > 0 {
        let p = kids.drop_last();
        law_unique_kids_are_ordered(p);
        let u = unique_kids(p);
        let v = unique_kids(kids);
        if let Some(k) = kid_of(kids.last()) {
            if !u.contains(k) {
                lemma_slot(u, k, 0);
                let at = slot(u, k, 0);
                assert(v == u.insert(at, k));
                assert forall|i: int, j: int| 0 <= i < j < v.len() implies text::less(v[i], v[j]) by {
                    if i < at && j > at {
                        assert(text::less(u[i], u[j - 1]));
                    }
                }
            }
        }
        assert forall|i: int| 0 <= i < kids.len() implies (kid_of(#[trigger] kids[i]) matches Some(
            k,
        ) ==> v.contains(k)) by {
            if let Some(k) = kid_of(kids[i]) {
                if i < p.len() {
                    assert(p[i] == kids[i]);
                    assert(u.contains(k));
                    let a = u.index_of(k);
                    if v != u {
                        let x = kid_of(kids.last())->0;
                        let at = slot(u, x, 0);
                        lemma_slot(u, x, 0);
                        if a < at {
                            assert(v[a] == k);
                        } else {
                            assert(v[a + 1] == k);
                        }
                    }
                } else {
                    if !u.contains(k) {
                        lemma_slot(u, k, 0);
                        assert(v[slot(u, k, 0)] == k);
                    }
                }
            }
        }
    }
}

/// The key identifiers of a list, each once, in order.
pub fn normalize_unique_kids(kids: &[String]) -> (r: Vec<String>)
    ensures
        text::texts(r@) == unique_kids(text::texts(kids@)),
{
    let ghost all = text::texts(kids@);
    let mut out: Vec<String> = Vec::new();
    assert(text::texts(out@) =~= Seq::<Seq<char>>::empty());
    assert(all.take(0) =~= Seq::<Seq<char>>::empty());
    for i in 0..kids.len()
        invariant
            all == text::texts(kids@),
            text::texts(out@) == unique_kids(all.take(i as int)),
    {
        let ghost part = all.take(i as int + 1);
        assert(part.drop_last() =~= all.take(i as int));
        assert(part.last() == kids@[i as int]@);
        if let Some(k) = normalize_kid(kids[i].as_str()) {
            if !text::listed(out.as_slice(), k.as_str()) {
                let ghost u = text::texts(out@);
                let n: usize = out.len();
                let mut j: usize = 0;
                while j < n && !text::is_less(k.as_str(), out[j].as_str())
                    invariant
                        n == out@.len(),
                        j <= n,
                        u == text::texts(out@),
                        slot(u, k@, 0) == slot(u, k@, j as int),
                    decreases n - j,
                {
                    assert(u[j as int] == out@[j as int]@);
                    j = j + 1;
                }
                assert(j < n ==> u[j as int] == out@[j as int]@);
                assert(slot(u, k@, j as int) == j);
                out.insert(j, k);
                assert(text::texts(out@) =~= u.insert(j as int, k@));
            }
        }
    }
    assert(all.take(all.len() as int) =~= all);
    out
}

/// Where the keys of a task come from.
pub enum KeyPlan {
    /// They are all there.
    Ready(KeyStore),
    /// None was given, and some are needed.
    Missing,
    /// Those of these identifiers are to be fetched.
    Fetch(Vec<String>),
}

/// Where the keys of a task come from.
pub fn resolve_key_store(mode: KeyMode, static_keys: &str, required_kids: &[String]) -> (r: KeyPlan)
    ensures
        ({
            let kids = unique_kids(text::texts(required_kids@));
            let given = KeyStoreView::none().with_text(static_keys@);
            match mode {
                KeyMode::Static => if given == KeyStoreView::none() && kids.len() > 0 {
                    r is Missing
                } else {
                    r matches KeyPlan::Ready(s) && s@ == given
                },
                KeyMode::Dynamic => if kids.len() == 0 {
                    r matches KeyPlan::Ready(s) && s@ == KeyStoreView::none()
                } else {
                    r matches KeyPlan::Fetch(k) && text::texts(k@) == kids
                },
            }
        }),
{
    let kids: Vec<String> = normalize_unique_kids(required_kids);
    assert(text::texts(kids@).len() == kids@.len());
    match mode {
        KeyMode::Static => {
            let store: KeyStore = KeyStore::parse(static_keys);
            if store.is_empty() && kids.len() > 0 {
                return KeyPlan::Missing;
            }
            KeyPlan::Ready(store)
        },
        KeyMode::Dynamic => {
            if kids.len() == 0 {
                return KeyPlan::Ready(KeyStore::default());
            }
            KeyPlan::Fetch(kids)
        },
    }
}

/// The identifiers among `kids` for which a store has no key.
pub open spec fn missing_in(store: KeyStoreView, kids: Seq<Seq<char>>) -> Seq<Seq<char>>
    decreases kids.len(),
{
    if kids.len() == 0 {
        Seq::empty()
    } else {
        let m = missing_in(store, kids.drop_last());
        if store.has(kids.last()) || store.bare.len() > 0 {
            m
        } else {
            m.push(kids.last())
        }
    }
}

/// The identifiers whose keys are to be fetched.
pub fn missing_dynamic_kids(store: &KeyStore, kids: &[String]) -> (r: Vec<String>)
    ensures
        text::texts(r@) == missing_in(store@, unique_kids(text::texts(kids@))),
{
    let unique: Vec<String> = normalize_unique_kids(kids);
    let ghost all = text::texts(unique@);
    let mut out: Vec<String> = Vec::new();
    assert(text::texts(out@) =~= Seq::<Seq<char>>::empty());
    assert(all.take(0) =~= Seq::<Seq<char>>::empty());
    for i in 0..unique.len()
        invariant
            all == text::texts(unique@),
            text::texts(out@) == missing_in(store@, all.take(i as int)),
    {
        let ghost part = all.take(i as int + 1);
        assert(part.drop_last() =~= all.take(i as int));
        assert(part.last() == unique@[i as int]@);
        if !store.has_kid(unique[i].as_str()) && !store.has_bare_key() {
            let ghost before = text::texts(out@);
            let k: String = text::clone_text(unique[i].as_str());
            out.push(k);
            assert(text::texts(out@) =~= before.push(k@));
        }
    }
    assert(all.take(all.len() as int) =~= all);
    out
}

/// Milliseconds before the next attempt at the key service: more by `base` with each failure, and
/// never more than `max`.
pub open spec fn retry_ms(attempt: int, base: int, max: int) -> int {
    if base * attempt > max {
        max
    } else {
        base * attempt
    }
}

/// Milliseconds before the next attempt at the key service.
pub fn key_api_retry_delay(attempt: usize, base_ms: u64, max_ms: u64) -> (r: u64)
    ensures
        r == retry_ms(attempt as int, base_ms as int, max_ms as int),
{
    assert(base_ms * attempt <= 0xffff_ffff_ffff_ffff * 0xffff_ffff_ffff_ffff) by (nonlinear_arith)
        requires
            0 <= base_ms <= 0xffff_ffff_ffff_ffff,
            0 <= attempt <= 0xffff_ffff_ffff_ffff,
    ;
    let scaled: u128 = base_ms as u128 * attempt as u128;
    if scaled > max_ms as u128 {
        max_ms
    } else {
        scaled as u64
    }
}

/// What follows a failed attempt at the key service.
#[derive(Debug, Clone, Copy)]
pub enum KeyRetry {
    /// The attempts are used up: its error is the answer.
    GiveUp,
    /// Another attempt after that many milliseconds.
    Wait(u64),
}

/// What follows the failure of the attempt of a number, counted from one.
pub open spec fn retry_after(attempt: int, attempts: int, base: int, max: int) -> Option<int> {
    if attempt < attempts {
        Some(retry_ms(attempt, base, max))
    } else {
        None
    }
}

/// Decides whether the key service is asked again after a failed attempt.
pub fn after_key_failure(attempt: usize, attempts: usize, base_ms: u64, max_ms: u64) -> (r: KeyRetry)
    ensures
        match retry_after(attempt as int, attempts as int, base_ms as int, max_ms as int) {
            Some(ms) => r matches KeyRetry::Wait(n) && n == ms,
            None => r is GiveUp,
        },
{
    if attempt < attempts {
        KeyRetry::Wait(key_api_retry_delay(attempt, base_ms, max_ms))
    } else {
        KeyRetry::GiveUp
    }
}

/// Delays never get shorter from one attempt to the next, and never exceed the greatest one.
pub proof fn law_key_delays_grow(attempt: int, base: int, max: int)
    requires
        attempt >= 1,
        base >= 0,
        max >= 0,
    ensures
        retry_ms(attempt, base, max) <= retry_ms(attempt + 1, base, max),
        retry_ms(attempt, base, max) <= max,
{
    assert(base * (attempt + 1) == base * attempt + base) by (nonlinear_arith);
}

/// Why a reply of the key service is refused.
#[derive(Debug)]
pub enum KeyApiError {
    Json(String),
    NotPair(String),
    BadKid(String),
    BadKey(String),
    Empty,
    Missing(Vec<String>),
    NoUsableKeys,
}

/// What a value of [`KeyApiError`] holds.
pub enum KeyApiErrorView {
    Json(Seq<char>),
    NotPair(Seq<char>),
    BadKid(Seq<char>),
    BadKey(Seq<char>),
    Empty,
    Missing(Seq<Seq<char>>),
    NoUsableKeys,
}

impl View for KeyApiError {
    type V = KeyApiErrorView;

    open spec fn view(&self) -> KeyApiErrorView {
        match self {
            KeyApiError::Json(s) => KeyApiErrorView::Json(s@),
            KeyApiError::NotPair(s) => KeyApiErrorView::NotPair(s@),
            KeyApiError::BadKid(s) => KeyApiErrorView::BadKid(s@),
            KeyApiError::BadKey(s) => KeyApiErrorView::BadKey(s@),
            KeyApiError::Empty => KeyApiErrorView::Empty,
            KeyApiError::Missing(v) => KeyApiErrorView::Missing(text::texts(v@)),
            KeyApiError::NoUsableKeys => KeyApiErrorView::NoUsableKeys,
        }
    }
}

impl KeyApiErrorView {
    /// The error in words.
    pub open spec fn text(self) -> Seq<char> {
        match self {
            KeyApiErrorView::Json(s) => {
                "dynamic key API returned invalid JSON string array: "@ + s
            },
            KeyApiErrorView::NotPair(s) => "dynamic key API returned non KID:KEY item: "@ + s,
            KeyApiErrorView::BadKid(s) => "dynamic key API returned invalid KID in item: "@ + s,
            KeyApiErrorView::BadKey(s) => {
                "dynamic key API returned invalid KEY in item for KID "@ + s
            },
            KeyApiErrorView::Empty => "dynamic key API returned an empty key array"@,
            KeyApiErrorView::Missing(v) => {
                "dynamic key API did not return KID:KEY for requested KID(s): "@ + text::joined(
                    v,
                    seq![','],
                )
            },
            KeyApiErrorView::NoUsableKeys => "dynamic key API returned no usable keys"@,
        }
    }
}

fn phrase(head: &str, tail: &str) -> (r: String)
    ensures
        r@ == head@ + tail@,
{
    let mut out: String = text::clone_text(head);
    text::push_str(&mut out, tail);
    out
}

fn join_texts(v: &[String], sep: char) -> (r: String)
    ensures
        r@ == text::joined(text::texts(v@), seq![sep]),
{
    let mut cs: Vec<Vec<char>> = Vec::new();
    let ghost all = text::texts(v@);
    for i in 0..v.len()
        invariant
            all == text::texts(v@),
            text::char_views(cs@) == all.take(i as int),
    {
        let ghost before = cs@;
        let c: Vec<char> = text::to_chars(v[i].as_str());
        cs.push(c);
        assert(text::char_views(cs@) =~= text::char_views(before).push(c@));
        assert(all.take(i as int + 1) =~= all.take(i as int).push(c@));
    }
    let n: usize = cs.len();
    assert(text::char_views(cs@) =~= all);
    assert(text::char_views(cs@).subrange(0, n as int) =~= all);
    text::from_chars(text::join(cs.as_slice(), 0, n, sep).as_slice())
}

impl KeyApiError {
    /// The error in words.
    pub fn message(&self) -> (r: String)
        ensures
            r@ == self@.text(),
    {
        match self {
            KeyApiError::Json(s) => phrase(
                "dynamic key API returned invalid JSON string array: ",
                s.as_str(),
            ),
            KeyApiError::NotPair(s) => phrase(
                "dynamic key API returned non KID:KEY item: ",
                s.as_str(),
            ),
            KeyApiError::BadKid(s) => phrase(
                "dynamic key API returned invalid KID in item: ",
                s.as_str(),
            ),
            KeyApiError::BadKey(s) => phrase(
                "dynamic key API returned invalid KEY in item for KID ",
                s.as_str(),
            ),
            KeyApiError::Empty => text::clone_text("dynamic key API returned an empty key array"),
            KeyApiError::Missing(v) => phrase(
                "dynamic key API did not return KID:KEY for requested KID(s): ",
                join_texts(v.as_slice(), ',').as_str(),
            ),
            KeyApiError::NoUsableKeys => text::clone_text(
                "dynamic key API returned no usable keys",
            ),
        }
    }
}

/// The lines of a reply, and the identifiers that they are for.
pub struct Reply {
    pub lines: Seq<Seq<char>>,
    pub kids: Seq<Seq<char>>,
}

/// A reply with one more item.
pub open spec fn with_item(r: Reply, item: Seq<char>) -> Result<Reply, KeyApiErrorView> {
    let line = text::trimmed(item);
    match text::index_from(line, ':', 0) {
        None => Err(KeyApiErrorView::NotPair(line)),
        Some(i) => match kid_of(line.take(i)) {
            None => Err(KeyApiErrorView::BadKid(line)),
            Some(kid) => if cenc::line_key(line) is None {
                Err(KeyApiErrorView::BadKey(kid))
            } else {
                Ok(Reply { lines: r.lines.push(line), kids: r.kids.push(kid) })
            },
        },
    }
}

/// The reply that the first `n` items make.
pub open spec fn with_items(items: Seq<Seq<char>>, n: int) -> Result<Reply, KeyApiErrorView>
    decreases n,
{
    if n <= 0 {
        Ok(Reply { lines: Seq::empty(), kids: Seq::empty() })
    } else {
        match with_items(items, n - 1) {
            Ok(r) => with_item(r, items[n - 1]),
            Err(e) => Err(e),
        }
    }
}

/// The identifiers that were asked for and not answered.
pub open spec fn unanswered(requested: Seq<Seq<char>>, kids: Seq<Seq<char>>) -> Seq<Seq<char>>
    decreases requested.len(),
{
    if requested.len() == 0 {
        Seq::empty()
    } else {
        let u = unanswered(requested.drop_last(), kids);
        match kid_of(requested.last()) {
            Some(k) => if kids.contains(k) {
                u
            } else {
                u.push(k)
            },
            None => u,
        }
    }
}

/// The lines of a reply that answers all that was asked for.
pub open spec fn lines_of_reply(items: Seq<Seq<char>>, requested: Seq<Seq<char>>) -> Result<
    Seq<char>,
    KeyApiErrorView,
> {
    match with_items(items, items.len() as int) {
        Err(e) => Err(e),
        Ok(r) => if r.lines.len() == 0 {
            Err(KeyApiErrorView::Empty)
        } else if unanswered(requested, r.kids).len() > 0 {
            Err(KeyApiErrorView::Missing(unanswered(requested, r.kids)))
        } else {
            Ok(text::joined(r.lines, seq!['\n']))
        },
    }
}

proof fn lemma_unanswered(requested: Seq<Seq<char>>, kids: Seq<Seq<char>>)
    requires
        unanswered(requested, kids).len() == 0,
    ensures
        forall|i: int|
            0 <= i < requested.len() ==> (kid_of(#[trigger] requested[i]) matches Some(k)
                ==> kids.contains(k)),
    decreases requested.len(),
{
    if requested.len() > 0 {
        let p = requested.drop_last();
        lemma_unanswered(p, kids);
        assert forall|i: int| 0 <= i < requested.len() implies (kid_of(
            #[trigger] requested[i],
        ) matches Some(k) ==> kids.contains(k)) by {
            if i < p.len() {
                assert(p[i] == requested[i]);
            }
        }
    }
}

/// The texts of a JSON array of strings, or why a text is no such array, in the words of
/// `serde_json`.
pub uninterp spec fn json_strings(s: Seq<char>) -> Result<Seq<Seq<char>>, Seq<char>>;

/// What a list or an error holds.
pub open spec fn listed_texts(v: Result<Vec<String>, String>) -> Result<Seq<Seq<char>>, Seq<char>> {
    match v {
        Ok(x) => Ok(text::texts(x@)),
        Err(e) => Err(e@),
    }
}

/// Calls `serde_json::from_str` for a list of strings and writes an error as text. Claimed: the
/// result depends on the text alone.
#[verifier::external_body]
fn parse_json_strings(s: &str) -> (r: Result<Vec<String>, String>)
    ensures
        listed_texts(r) == json_strings(s@),
{
    serde_json::from_str::<Vec<String>>(s).map_err(|e| e.to_string())
}

/// The lines of a reply that answers all that was asked for, by the items of its list.
pub fn key_lines(items: &[String], requested_kids: &[String]) -> (r: Result<String, KeyApiError>)
    ensures
        match r {
            Ok(s) => lines_of_reply(text::texts(items@), text::texts(requested_kids@)) == Ok::<
                Seq<char>,
                KeyApiErrorView,
            >(s@),
            Err(e) => lines_of_reply(text::texts(items@), text::texts(requested_kids@)) == Err::<
                Seq<char>,
                KeyApiErrorView,
            >(e@),
        },
{
    let ghost all = text::texts(items@);
    let ghost wanted = text::texts(requested_kids@);
    let mut lines: Vec<String> = Vec::new();
    let mut kids: Vec<String> = Vec::new();
    assert(text::texts(lines@) =~= Seq::<Seq<char>>::empty());
    assert(text::texts(kids@) =~= Seq::<Seq<char>>::empty());
    for i in 0..items.len()
        invariant
            all == text::texts(items@),
            wanted == text::texts(requested_kids@),
            with_items(all, i as int) == Ok::<Reply, KeyApiErrorView>(
                Reply { lines: text::texts(lines@), kids: text::texts(kids@) },
            ),
    {
        assert(all[i as int] == items@[i as int]@);
        match check_item(items[i].as_str()) {
            Err(e) => {
                proof {
                    lemma_error_stays(all, i as int + 1, all.len() as int);
                }
                return Err(e);
            },
            Ok((line, kid)) => {
                let ghost l = text::texts(lines@);
                let ghost k = text::texts(kids@);
                lines.push(line);
                kids.push(kid);
                assert(text::texts(lines@) =~= l.push(line@));
                assert(text::texts(kids@) =~= k.push(kid@));
            },
        }
    }
    assert(text::texts(lines@).len() == lines@.len());
    if lines.len() == 0 {
        return Err(KeyApiError::Empty);
    }
    let missing: Vec<String> = find_unanswered(requested_kids, kids.as_slice());
    assert(text::texts(missing@).len() == missing@.len());
    if missing.len() > 0 {
        return Err(KeyApiError::Missing(missing));
    }
    Ok(join_texts(lines.as_slice(), '\n'))
}

proof fn lemma_error_stays(items: Seq<Seq<char>>, i: int, n: int)
    requires
        0 <= i <= n,
        with_items(items, i) is Err,
    ensures
        with_items(items, n) == with_items(items, i),
    decreases n - i,
{
    if i < n {
        lemma_error_stays(items, i, n - 1);
    }
}

fn check_item(item: &str) -> (r: Result<(String, String), KeyApiError>)
    ensures
        forall|p: Reply| #[trigger]
            with_item(p, item@) == (match r {
                Err(e) => Err(e@),
                Ok((line, kid)) => Ok(
                    Reply { lines: p.lines.push(line@), kids: p.kids.push(kid@) },
                ),
            }),
{
    let line: Vec<char> = text::trim(text::to_chars(item).as_slice());
    let shown: String = text::from_chars(line.as_slice());
    match text::index_of(line.as_slice(), ':', 0) {
        None => Err(KeyApiError::NotPair(shown)),
        Some(i) => {
            let head: &[char] = vstd::slice::slice_subrange(line.as_slice(), 0, i);
            assert(head@ =~= line@.take(i as int));
            match normalize_kid(text::from_chars(head).as_str()) {
                None => Err(KeyApiError::BadKid(shown)),
                Some(kid) => {
                    if cenc::parse_key_hex(shown.as_str()).is_none() {
                        return Err(KeyApiError::BadKey(kid));
                    }
                    Ok((shown, kid))
                },
            }
        },
    }
}

fn find_unanswered(requested: &[String], kids: &[String]) -> (r: Vec<String>)
    ensures
        text::texts(r@) == unanswered(text::texts(requested@), text::texts(kids@)),
{
    let ghost all = text::texts(requested@);
    let ghost have = text::texts(kids@);
    let mut out: Vec<String> = Vec::new();
    assert(text::texts(out@) =~= Seq::<Seq<char>>::empty());
    assert(all.take(0) =~= Seq::<Seq<char>>::empty());
    for i in 0..requested.len()
        invariant
            all == text::texts(requested@),
            have == text::texts(kids@),
            text::texts(out@) == unanswered(all.take(i as int), have),
    {
        let ghost part = all.take(i as int + 1);
        assert(part.drop_last() =~= all.take(i as int));
        assert(part.last() == requested@[i as int]@);
        if let Some(k) = normalize_kid(requested[i].as_str()) {
            if !text::listed(kids, k.as_str()) {
                let ghost before = text::texts(out@);
                out.push(k);
                assert(text::texts(out@) =~= before.push(k@));
            }
        }
    }
    assert(all.take(all.len() as int) =~= all);
    out
}

/// What a reply of the key service comes to.
pub open spec fn reply_of(s: Seq<char>, requested: Seq<Seq<char>>) -> Result<
    Seq<char>,
    KeyApiErrorView,
> {
    match json_strings(s) {
        Err(e) => Err(KeyApiErrorView::Json(e)),
        Ok(items) => lines_of_reply(items, requested),
    }
}

/// The lines of a reply of the key service.
pub fn parse_key_api_response(s: &str) -> (r: Result<String, KeyApiError>)
    ensures
        match r {
            Ok(t) => reply_of(s@, Seq::empty()) == Ok::<Seq<char>, KeyApiErrorView>(t@),
            Err(e) => reply_of(s@, Seq::empty()) == Err::<Seq<char>, KeyApiErrorView>(e@),
        },
{
    let none: Vec<String> = Vec::new();
    assert(text::texts(none@) =~= Seq::<Seq<char>>::empty());
    parse_key_api_response_for_kids(s, none.as_slice())
}

/// The lines of a reply of the key service that answers all that was asked for.
pub fn parse_key_api_response_for_kids(s: &str, requested_kids: &[String]) -> (r: Result<
    String,
    KeyApiError,
>)
    ensures
        match r {
            Ok(t) => reply_of(s@, text::texts(requested_kids@)) == Ok::<
                Seq<char>,
                KeyApiErrorView,
            >(t@),
            Err(e) => reply_of(s@, text::texts(requested_kids@)) == Err::<
                Seq<char>,
                KeyApiErrorView,
            >(e@),
        },
{
    match parse_json_strings(s) {
        Err(e) => Err(KeyApiError::Json(e)),
        Ok(items) => key_lines(items.as_slice(), requested_kids),
    }
}

/// The keys of a reply: at least one.
pub fn store_of_lines(lines: &str) -> (r: Result<KeyStore, KeyApiError>)
    ensures
        match r {
            Ok(s) => s@ == KeyStoreView::none().with_text(lines@) && s@ != KeyStoreView::none(),
            Err(e) => e@ == KeyApiErrorView::NoUsableKeys && KeyStoreView::none().with_text(lines@)
                == KeyStoreView::none(),
        },
{
    let store: KeyStore = KeyStore::parse(lines);
    if store.is_empty() {
        return Err(KeyApiError::NoUsableKeys);
    }
    Ok(store)
}

/// The identifier of an item `KID:KEY`; `None` where it is no such item.
pub open spec fn pair_kid(item: Seq<char>) -> Option<Seq<char>> {
    let line = text::trimmed(item);
    match text::index_from(line, ':', 0) {
        Some(i) => if cenc::line_key(line) is Some {
            kid_of(line.take(i))
        } else {
            None
        },
        None => None,
    }
}

/// Whether items answer every identifier that was asked for.
pub open spec fn covers(items: Seq<Seq<char>>, requested: Seq<Seq<char>>) -> bool {
    forall|j: int|
        0 <= j < requested.len() ==> (kid_of(#[trigger] requested[j]) matches Some(k)
            ==> exists|i: int| 0 <= i < items.len() && #[trigger] pair_kid(items[i]) == Some(k))
}

/// Texts without the white space around each.
pub open spec fn all_trimmed(items: Seq<Seq<char>>) -> Seq<Seq<char>> {
    items.map_values(|x: Seq<char>| text::trimmed(x))
}

proof fn lemma_items(items: Seq<Seq<char>>, n: int)
    requires
        0 <= n <= items.len(),
    ensures
        with_items(items, n) is Ok <==> forall|i: int|
            0 <= i < n ==> #[trigger] pair_kid(items[i]) is Some,
        with_items(items, n) matches Ok(r) ==> r.lines == all_trimmed(items).take(n)
            && r.kids.len() == n && forall|i: int|
            0 <= i < n ==> #[trigger] pair_kid(items[i]) == Some(r.kids[i]),
    decreases n,
{
    let all = all_trimmed(items);
    if n > 0 {
        lemma_items(items, n - 1);
        let kid = pair_kid(items[n - 1]);
        if let Ok(r) = with_items(items, n - 1) {
            if kid is Some {
                assert(all.take(n) =~= all.take(n - 1).push(text::trimmed(items[n - 1])));
            }
        }
    } else {
        assert(all.take(0) =~= Seq::<Seq<char>>::empty());
    }
}

/// A reply is accepted if and only if it is a list of items `KID:KEY` with at least one, and
/// answers every identifier that was asked for. It comes to its items, each on a line.
pub proof fn law_reply_is_accepted(s: Seq<char>, requested: Seq<Seq<char>>)
    ensures
        reply_of(s, requested) is Ok <==> {
            &&& json_strings(s) matches Ok(items)
            &&& items.len() > 0
            &&& forall|i: int| 0 <= i < items.len() ==> #[trigger] pair_kid(items[i]) is Some
            &&& covers(items, requested)
        },
        reply_of(s, requested) matches Ok(t) ==> t == text::joined(
            all_trimmed(json_strings(s)->Ok_0),
            seq!['\n'],
        ),
{
    if let Ok(items) = json_strings(s) {
        let n = items.len() as int;
        lemma_items(items, n);
        if let Ok(r) = with_items(items, n) {
            assert(all_trimmed(items).take(n) =~= all_trimmed(items));
            if unanswered(requested, r.kids).len() == 0 {
                lemma_unanswered(requested, r.kids);
                assert forall|j: int| 0 <= j < requested.len() implies (kid_of(
                    #[trigger] requested[j],
                ) matches Some(k) ==> exists|i: int|
                    0 <= i < items.len() && #[trigger] pair_kid(items[i]) == Some(k)) by {
                    if let Some(k) = kid_of(requested[j]) {
                        let i = choose|i: int| 0 <= i < r.kids.len() && r.kids[i] == k;
                        assert(pair_kid(items[i]) == Some(k));
                    }
                }
            } else if covers(items, requested) {
                lemma_all_answered(items, requested, r.kids);
            }
        }
    }
}

proof fn lemma_all_answered(
    items: Seq<Seq<char>>,
    requested: Seq<Seq<char>>,
    kids: Seq<Seq<char>>,
)
    requires
        covers(items, requested),
        kids.len() == items.len(),
        forall|i: int| 0 <= i < items.len() ==> #[trigger] pair_kid(items[i]) == Some(kids[i]),
    ensures
        unanswered(requested, kids).len() == 0,
    decreases requested.len(),
{
    if requested.len() > 0 {
        let p = requested.drop_last();
        assert forall|j: int| 0 <= j < p.len() implies (kid_of(#[trigger] p[j]) matches Some(k)
            ==> exists|i: int| 0 <= i < items.len() && #[trigger] pair_kid(items[i]) == Some(k)) by {
            assert(p[j] == requested[j]);
        }
        lemma_all_answered(items, p, kids);
        let last = requested[requested.len() - 1];
        if let Some(k) = kid_of(last) {
            let i = choose|i: int| 0 <= i < items.len() && #[trigger] pair_kid(items[i]) == Some(k);
            assert(kids[i] == k);
        }
    }
}

/// Whether the identifier of an item has no prefix for hexadecimal numbers, and the item is one
/// line.
pub open spec fn plain_item(item: Seq<char>) -> bool {
    let line = text::trimmed(item);
    &&& !line.contains('\n')
    &&& text::index_from(line, ':', 0) matches Some(i) ==> !"0x"@.is_prefix_of(
        text::trimmed(line.take(i)),
    ) && !"0X"@.is_prefix_of(text::trimmed(line.take(i)))
}

proof fn lemma_without_holds(s: Seq<char>, c: char, i: int)
    requires
        0 <= i < s.len(),
        s[i] != c,
    ensures
        text::without(s, c).contains(s[i]),
    decreases s.len(),
{
    let w = text::without(s, c);
    let d = text::without(s.drop_last(), c);
    if i == s.len() - 1 {
        assert(w[w.len() - 1] == s[i]);
    } else {
        lemma_without_holds(s.drop_last(), c, i);
        let j = choose|j: int| 0 <= j < d.len() && d[j] == s[i];
        assert(w[j] == s[i]);
    }
}

proof fn lemma_without_is_part(s: Seq<char>, c: char, i: int)
    requires
        0 <= i < text::without(s, c).len(),
    ensures
        s.contains(text::without(s, c)[i]),
        text::without(s, c)[i] != c,
    decreases s.len(),
{
    let d = s.drop_last();
    let w = text::without(d, c);
    if i < w.len() {
        lemma_without_is_part(d, c, i);
        let j = choose|j: int| 0 <= j < d.len() && d[j] == w[i];
        assert(s[j] == w[i]);
    } else {
        assert(s[s.len() - 1] == s.last());
    }
}

proof fn lemma_without_nothing(s: Seq<char>, c: char)
    requires
        !s.contains(c),
    ensures
        text::without(s, c) == s,
    decreases s.len(),
{
    if s.len() > 0 {
        assert(s[s.len() - 1] == s.last());
        assert forall|i: int| 0 <= i < s.drop_last().len() implies s.drop_last()[i] != c by {
            assert(s[i] == s.drop_last()[i]);
        }
        lemma_without_nothing(s.drop_last(), c);
        assert(s.drop_last().push(s.last()) =~= s);
    }
}

proof fn lemma_kid_is_normal(kid: Seq<char>, k: Seq<char>)
    requires
        kid_of(kid) == Some(k),
    ensures
        cenc::normal_kid(k) == k,
        !"0x"@.is_prefix_of(text::trimmed(kid)) && !"0X"@.is_prefix_of(text::trimmed(kid))
            ==> cenc::normal_kid(kid) == k,
{
    let s = text::skip_text(text::skip_text(text::trimmed(kid), "0x"@), "0X"@);
    let l = text::ascii_lowercase(s);
    assert forall|i: int| 0 <= i < k.len() implies text::ascii_lower(#[trigger] k[i]) == k[i] && k[i]
        != '-' && '\0' <= k[i] && k[i] <= '\u{7f}' && !text::white(k[i]) by {
        lemma_without_is_part(l, '-', i);
        let j = choose|j: int| 0 <= j < l.len() && l[j] == k[i];
        assert(l[j] == text::ascii_lower(s[j]));
        assert(text::hex_value(k[i]) is Some);
    }
    assert(vstd::utf8::is_ascii_chars(k));
    assert(text::ascii_lowercase(k) =~= k);
    assert(!k.contains('-'));
    lemma_without_nothing(k, '-');
    assert(text::trimmed(k) == k);
    if !"0x"@.is_prefix_of(text::trimmed(kid)) && !"0X"@.is_prefix_of(text::trimmed(kid)) {
        reveal_strlit("0x");
        reveal_strlit("0X");
        assert(s == text::trimmed(kid));
        assert forall|i: int| 0 <= i < s.len() implies '\0' <= #[trigger] s[i] && s[i]
            <= '\u{7f}' by {
            assert(l[i] == text::ascii_lower(s[i]));
            if l[i] != '-' {
                lemma_without_holds(l, '-', i);
                let j = choose|j: int| 0 <= j < k.len() && k[j] == l[i];
                assert(k[j] <= '\u{7f}');
            }
        }
        assert(vstd::utf8::is_ascii_chars(s));
    }
}

proof fn lemma_keys_stay(
    store: KeyStoreView,
    lines: Seq<Seq<char>>,
    from: int,
    n: int,
    kid: Seq<char>,
)
    requires
        0 <= from <= n <= lines.len(),
        store.with_lines(lines, from).has(kid),
    ensures
        store.with_lines(lines, n).has(kid),
    decreases n - from,
{
    if from < n {
        lemma_keys_stay(store, lines, from, n - 1, kid);
    }
}

/// The keys that an accepted reply comes to have one for every identifier that was asked for, if
/// its items are plain.
pub proof fn law_accepted_reply_fills_store(
    s: Seq<char>,
    requested: Seq<Seq<char>>,
    t: Seq<char>,
    j: int,
    k: Seq<char>,
)
    requires
        reply_of(s, requested) == Ok::<Seq<char>, KeyApiErrorView>(t),
        forall|i: int|
            0 <= i < json_strings(s)->Ok_0.len() ==> plain_item(#[trigger] json_strings(s)->Ok_0[i]),
        0 <= j < requested.len(),
        kid_of(requested[j]) == Some(k),
    ensures
        KeyStoreView::none().with_text(t).has(k),
{
    law_reply_is_accepted(s, requested);
    let items = json_strings(s)->Ok_0;
    let lines = all_trimmed(items);
    assert forall|i: int| 0 <= i < lines.len() implies (#[trigger] lines[i]).len() > 0
        && !lines[i].contains('\n') && lines[i].last() != '\r' by {
        assert(plain_item(items[i]));
        assert(pair_kid(items[i]) is Some);
        text::lemma_index_shape(lines[i], ':', 0);
        text::lemma_trimmed_shape(items[i]);
    }
    text::law_joined_lines_are_read_back(lines);
    assert(text::lines_of(t) == lines);
    assert(kid_of(requested[j]) is Some);
    let i = choose|i: int| 0 <= i < items.len() && #[trigger] pair_kid(items[i]) == Some(k);
    let line = lines[i];
    let none = KeyStoreView::none();
    assert(plain_item(items[i]));
    text::law_trim_is_idempotent(items[i]);
    let c = text::index_from(line, ':', 0)->0;
    lemma_kid_is_normal(line.take(c), k);
    assert(none.with_lines(lines, i + 1).has(k));
    lemma_keys_stay(none, lines, i + 1, lines.len() as int, k);
}

} // verus!
