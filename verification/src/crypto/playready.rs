//! Key identifiers inside PlayReady data URIs.

use base64::Engine;
use vstd::prelude::*;

use crate::text;

verus! {

/// The bytes that the standard base64 engine decodes a text to, if it accepts it.
pub uninterp spec fn base64_bytes(s: Seq<char>) -> Option<Seq<u8>>;

/// Calls `decode` of `base64::engine::general_purpose::STANDARD`; an error becomes `None`.
/// Claimed: the result depends on the text alone.
#[verifier::external_body]
fn base64_decode(s: &str) -> (r: Option<Vec<u8>>)
    ensures
        match r {
            None => base64_bytes(s@) is None,
            Some(b) => base64_bytes(s@) == Some(b@),
        },
{
    base64::engine::general_purpose::STANDARD.decode(s).ok()
}

/// Why `hex::decode` refuses a text, in its words.
pub uninterp spec fn hex_fault(s: Seq<char>) -> Seq<char>;

/// Calls `hex::decode` and writes an error as text. Claimed: it succeeds on pairs of hexadecimal
/// digits of either case and nothing else, and gives the bytes they spell; the words of an error
/// depend on the text alone.
#[verifier::external_body]
pub(crate) fn hex_decode(s: &str) -> (r: Result<Vec<u8>, String>)
    ensures
        match r {
            Ok(b) => text::is_hex(s@) && b@ == text::hex_bytes(s@),
            Err(e) => !text::is_hex(s@) && e@ == hex_fault(s@),
        },
{
    hex::decode(s).map_err(|e| e.to_string())
}

/// Calls `hex::encode`. Claimed: it writes two lower-case digits for each byte.
#[verifier::external_body]
fn hex_encode(bytes: &[u8]) -> (r: String)
    ensures
        r@ == text::hex_lower(bytes@),
{
    hex::encode(bytes)
}

/// `char::from_u32` gives the character of a code point that is no surrogate.
pub assume_specification[ char::from_u32 ](i: u32) -> (r: Option<char>)
    ensures
        i <= 0xD7FF || 0xE000 <= i <= 0x10FFFF ==> r == Some(i as char),
        !(i <= 0xD7FF || 0xE000 <= i <= 0x10FFFF) ==> r is None,
;

/// The little-endian code unit at `p`.
pub open spec fn unit_at(d: Seq<u8>, p: int) -> int {
    d[p] + d[p + 1] * 0x100
}

/// The text of little-endian UTF-16 from `p` on. A surrogate without its other half becomes a
/// replacement character, and an odd byte at the end is dropped.
pub open spec fn utf16le_text(d: Seq<u8>, p: int) -> Seq<char>
    decreases d.len() - p,
{
    if p < 0 || p + 2 > d.len() {
        Seq::empty()
    } else {
        let u = unit_at(d, p);
        if u < 0xD800 || u > 0xDFFF {
            seq![u as char] + utf16le_text(d, p + 2)
        } else if u < 0xDC00 && p + 4 <= d.len() && 0xDC00 <= unit_at(d, p + 2) <= 0xDFFF {
            seq![(0x1_0000 + (u - 0xD800) * 0x400 + (unit_at(d, p + 2) - 0xDC00)) as char]
                + utf16le_text(d, p + 4)
        } else {
            seq!['\u{fffd}'] + utf16le_text(d, p + 2)
        }
    }
}

/// The quoted value of an attribute inside a tag, whatever the case of its name.
pub open spec fn attribute(tag: Seq<char>, name_and_equals: Seq<char>) -> Option<Seq<char>> {
    match text::find_at(text::ascii_lowercase(tag), name_and_equals, 0) {
        None => None,
        Some(i) => {
            let q = i + name_and_equals.len();
            if q >= tag.len() || (tag[q] != '"' && tag[q] != '\'') {
                None
            } else {
                match text::index_from(tag, tag[q], q + 1) {
                    None => None,
                    Some(e) => Some(text::trimmed(tag.subrange(q + 1, e))),
                }
            }
        },
    }
}

/// The value of the first `KID` element from `i` on: its `VALUE` attribute, or else its content
/// where that is not blank.
pub open spec fn kid_value(s: Seq<char>, i: int) -> Option<Seq<char>>
    decreases s.len() - i,
{
    let lower = text::ascii_lowercase(s);
    if i < 0 || i > s.len() {
        None
    } else {
        match text::find_at(lower, "<kid"@, i) {
            None => None,
            Some(t) => match text::index_from(s, '>', t) {
                None => None,
                Some(e) => if !(i <= t <= e < s.len()) {
                    None
                } else {
                    match attribute(s.subrange(t, e + 1), "value="@) {
                        Some(v) => Some(v),
                        None => match text::find_at(lower, "</kid>"@, e + 1) {
                            None => None,
                            Some(c) => {
                                let v = text::trimmed(s.subrange(e + 1, c));
                                if v.len() > 0 {
                                    Some(v)
                                } else {
                                    kid_value(s, e + 1)
                                }
                            },
                        },
                    }
                },
            },
        }
    }
}

/// The bytes of a GUID in the order of a common key identifier: the first three groups are
/// little-endian.
pub open spec fn guid_swapped(g: Seq<u8>) -> Seq<u8> {
    seq![
        g[3],
        g[2],
        g[1],
        g[0],
        g[5],
        g[4],
        g[7],
        g[6],
        g[8],
        g[9],
        g[10],
        g[11],
        g[12],
        g[13],
        g[14],
        g[15],
    ]
}

/// The bytes that the value of a `KID` element states: 32 hexadecimal digits, or base64.
pub open spec fn value_bytes(v: Seq<char>) -> Option<Seq<u8>> {
    let t = text::trimmed(v);
    if t.len() == 32 && text::is_hex(t) {
        Some(text::hex_bytes(t))
    } else {
        base64_bytes(t)
    }
}

/// The common key identifier of bytes that may be a GUID.
pub open spec fn common_kid(raw: Option<Seq<u8>>) -> Option<Seq<char>> {
    match raw {
        Some(b) => if b.len() == 16 {
            Some(text::hex_lower(guid_swapped(b)))
        } else {
            None
        },
        None => None,
    }
}

/// The value of the first `KID` element of a PlayReady object, read as UTF-16 and else as UTF-8.
pub open spec fn blob_value(d: Seq<u8>) -> Option<Seq<char>> {
    match kid_value(utf16le_text(d, 0), 0) {
        Some(v) => Some(v),
        None => kid_value(text::lossy_text(d), 0),
    }
}

/// The key identifier of a PlayReady object.
pub open spec fn blob_kid(d: Seq<u8>) -> Option<Seq<char>> {
    match blob_value(d) {
        Some(v) => common_kid(value_bytes(v)),
        None => None,
    }
}

/// The base64 text of a data URI.
pub open spec fn data_uri_payload(uri: Seq<char>) -> Option<Seq<char>> {
    if !"data:"@.is_prefix_of(uri) {
        None
    } else {
        match text::index_from(uri, ',', 5) {
            Some(i) => Some(text::trimmed(uri.skip(i + 1))),
            None => None,
        }
    }
}

/// The key identifier of a PlayReady object in a data URI.
pub open spec fn data_uri_kid(uri: Seq<char>) -> Option<Seq<char>> {
    match data_uri_payload(uri) {
        Some(p) => match base64_bytes(p) {
            Some(d) => blob_kid(d),
            None => None,
        },
        None => None,
    }
}

/// Swapping the groups of a GUID twice changes nothing.
pub proof fn law_guid_swap_is_involution(g: Seq<u8>)
    requires
        g.len() == 16,
    ensures
        guid_swapped(guid_swapped(g)) == g,
{
    assert(guid_swapped(guid_swapped(g)) =~= g);
}

/// A key identifier from a PlayReady object has 32 lower-case hexadecimal digits.
pub proof fn law_common_kid_is_hex(raw: Seq<u8>)
    requires
        raw.len() == 16,
    ensures
        common_kid(Some(raw)) matches Some(k) && k.len() == 32 && text::is_hex(k)
            && text::hex_bytes(k) == guid_swapped(raw),
{
    text::law_hex_round_trip(guid_swapped(raw));
}

/// The bytes of an ASCII text.
pub open spec fn ascii_bytes(x: Seq<char>) -> Seq<u8> {
    x.map_values(|c: char| c as u8)
}

/// The bytes of an ASCII text in little-endian UTF-16.
pub open spec fn utf16le_bytes(x: Seq<char>) -> Seq<u8> {
    Seq::new(
        2 * x.len(),
        |i: int|
            if i % 2 == 0 {
                x[i / 2] as u8
            } else {
                0
            },
    )
}

/// Whether a text is ASCII without NUL.
pub open spec fn plain_ascii(x: Seq<char>) -> bool {
    forall|i: int| 0 <= i < x.len() ==> 1 <= (#[trigger] x[i]) as int && x[i] as int <= 127
}

proof fn lemma_no_tag(s: Seq<char>)
    requires
        forall|j: int| 0 <= j < s.len() - 1 ==> !(#[trigger] s[j] == '<' && (s[j + 1] == 'k' || s[j + 1]
            == 'K')),
    ensures
        kid_value(s, 0) is None,
{
    reveal_strlit("<kid");
    let lower = text::ascii_lowercase(s);
    let tag = "<kid"@;
    assert forall|j: int| 0 <= j && j + tag.len() <= lower.len() implies #[trigger] lower.subrange(
        j,
        j + tag.len(),
    ) != tag by {
        let part = lower.subrange(j, j + tag.len());
        assert(part[0] == text::ascii_lower(s[j]));
        assert(part[1] == text::ascii_lower(s[j + 1]));
        if part == tag {
            assert(part[0] == '<' && part[1] == 'k');
            assert(s[j] == '<');
        }
    }
    text::lemma_not_found(lower, tag, 0);
}

proof fn lemma_wide_text(x: Seq<char>, k: int)
    requires
        plain_ascii(x),
        0 <= k <= x.len(),
    ensures
        utf16le_text(utf16le_bytes(x), 2 * k) == x.skip(k),
    decreases x.len() - k,
{
    let d = utf16le_bytes(x);
    if k < x.len() {
        let rest = utf16le_text(d, 2 * k + 2);
        lemma_wide_text(x, k + 1);
        assert(rest == x.skip(k + 1));
        assert(d[2 * k] == x[k] as u8);
        assert(d[2 * k + 1] == 0);
        assert(unit_at(d, 2 * k) == x[k] as int);
        assert(seq![x[k]] + rest =~= x.skip(k));
    } else {
        assert(x.skip(k) =~= Seq::<char>::empty());
    }
}

proof fn lemma_narrow_text(d: Seq<u8>, p: int)
    requires
        0 <= p,
        forall|i: int| 0 <= i < d.len() ==> 1 <= (#[trigger] d[i]) && d[i] <= 127,
    ensures
        forall|j: int| 0 <= j < utf16le_text(d, p).len() ==> #[trigger] utf16le_text(d, p)[j] != '<',
    decreases d.len() - p,
{
    if p + 2 <= d.len() {
        let u = unit_at(d, p);
        assert(1 <= d[p] && d[p] <= 127);
        assert(1 <= d[p + 1] && d[p + 1] <= 127);
        assert(0x101 <= u < 0x8000);
        lemma_narrow_text(d, p + 2);
        let rest = utf16le_text(d, p + 2);
        let all = seq![u as char] + rest;
        assert forall|j: int| 0 <= j < all.len() implies #[trigger] all[j] != '<' by {
            if j > 0 {
                assert(all[j] == rest[j - 1]);
            }
        }
    }
}

/// A PlayReady object in ASCII and the same text in little-endian UTF-16 have the same key
/// identifier: that of the text.
pub proof fn law_encodings_agree(x: Seq<char>)
    requires
        plain_ascii(x),
    ensures
        blob_kid(ascii_bytes(x)) == blob_kid(utf16le_bytes(x)),
        blob_value(ascii_bytes(x)) == kid_value(x, 0),
        blob_value(utf16le_bytes(x)) == kid_value(x, 0),
{
    let a = ascii_bytes(x);
    let u = utf16le_bytes(x);
    assert forall|i: int| 0 <= i < a.len() implies 1 <= (#[trigger] a[i]) && a[i] <= 127 by {
        assert(1 <= x[i] as int && x[i] as int <= 127);
        assert(a[i] == x[i] as u8);
    }
    lemma_narrow_text(a, 0);
    lemma_no_tag(utf16le_text(a, 0));
    text::lemma_ascii_is_read(a);
    assert(text::ascii_text(a) =~= x) by {
        assert forall|i: int| 0 <= i < x.len() implies text::ascii_text(a)[i] == x[i] by {
            assert(a[i] == x[i] as u8);
            assert(1 <= x[i] as int && x[i] as int <= 127);
        }
    }
    lemma_wide_text(x, 0);
    assert(x.skip(0) =~= x);
    assert forall|i: int| 0 <= i < u.len() implies (#[trigger] u[i]) < 128 by {
        if i % 2 == 0 {
            assert(1 <= x[i / 2] as int && x[i / 2] as int <= 127);
        }
    }
    text::lemma_ascii_is_read(u);
    let w = text::ascii_text(u);
    assert forall|j: int| 0 <= j < w.len() - 1 implies !(#[trigger] w[j] == '<' && (w[j + 1] == 'k'
        || w[j + 1] == 'K')) by {
        assert(w[j] == u[j] as char);
        assert(w[j + 1] == u[j + 1] as char);
        if j % 2 == 0 {
            assert(u[j + 1] == 0);
        } else {
            assert(u[j] == 0);
        }
    }
    lemma_no_tag(w);
}

/// Reads the key identifier of a PlayReady object in a data URI.
pub fn kid_from_playready_data_uri(uri: &str) -> (r: Option<String>)
    ensures
        match r {
            None => data_uri_kid(uri@) is None,
            Some(k) => data_uri_kid(uri@) == Some(k@),
        },
{
    let u: Vec<char> = text::to_chars(uri);
    if !text::starts_with(u.as_slice(), "data:") {
        return None;
    }
    match text::index_of(u.as_slice(), ',', 5) {
        None => None,
        Some(i) => {
            let rest: &[char] = vstd::slice::slice_subrange(u.as_slice(), i + 1, u.len());
            assert(rest@ =~= uri@.skip(i as int + 1));
            let b64: Vec<char> = text::trim(rest);
            match base64_decode(text::from_chars(b64.as_slice()).as_str()) {
                None => None,
                Some(data) => kid_from_playready_blob(data.as_slice()),
            }
        },
    }
}

/// Reads the key identifier of a PlayReady object.
pub fn kid_from_playready_blob(data: &[u8]) -> (r: Option<String>)
    ensures
        match r {
            None => blob_kid(data@) is None,
            Some(k) => blob_kid(data@) == Some(k@),
        },
{
    let wide: Vec<char> = utf16le_lossy(data);
    let value: Vec<char> = match extract_kid_value(wide.as_slice()) {
        Some(v) => v,
        None => {
            let narrow: Vec<char> = text::to_chars(text::from_utf8_lossy(data).as_str());
            match extract_kid_value(narrow.as_slice()) {
                Some(v) => v,
                None => return None,
            }
        },
    };
    playready_kid_value_to_common_hex(text::from_chars(value.as_slice()).as_str())
}

fn utf16le_lossy(d: &[u8]) -> (r: Vec<char>)
    ensures
        r@ == utf16le_text(d@, 0),
{
    let n: usize = d.len();
    let mut out: Vec<char> = Vec::new();
    let mut p: usize = 0;
    let ghost all = utf16le_text(d@, 0);
    assert(out@ + all =~= all);
    while n - p >= 2
        invariant
            n == d@.len(),
            p <= n,
            out@ + utf16le_text(d@, p as int) == all,
        decreases n - p,
    {
        let u: u32 = d[p] as u32 + d[p + 1] as u32 * 0x100;
        let ghost before = out@;
        let mut next: usize = p + 2;
        let mut code: u32 = 0xFFFD;
        if u < 0xD800 || u > 0xDFFF {
            code = u;
        } else if u < 0xDC00 && n - p >= 4 {
            let v: u32 = d[p + 2] as u32 + d[p + 3] as u32 * 0x100;
            if v >= 0xDC00 && v <= 0xDFFF {
                code = 0x1_0000 + (u - 0xD800) * 0x400 + (v - 0xDC00);
                next = p + 4;
            }
        }
        let c: char = match char::from_u32(code) {
            Some(c) => c,
            None => '\u{fffd}',
        };
        out.push(c);
        proof {
            let rest = utf16le_text(d@, next as int);
            assert(out@ + rest =~= before + (seq![c] + rest));
        }
        p = next;
    }
    assert(out@ =~= all);
    out
}

fn attr_value(tag: &[char], name_and_equals: &str) -> (r: Option<Vec<char>>)
    ensures
        match r {
            None => attribute(tag@, name_and_equals@) is None,
            Some(v) => attribute(tag@, name_and_equals@) == Some(v@),
        },
{
    let lower: Vec<char> = text::to_ascii_lower(tag);
    match text::find(lower.as_slice(), name_and_equals, 0) {
        None => None,
        Some(i) => {
            let m: Vec<char> = text::to_chars(name_and_equals);
            assert(i + m@.len() <= lower.len());
            let q: usize = i + m.len();
            if q >= tag.len() || (tag[q] != '"' && tag[q] != '\'') {
                return None;
            }
            match text::index_of(tag, tag[q], q + 1) {
                None => None,
                Some(e) => Some(text::trim(vstd::slice::slice_subrange(tag, q + 1, e))),
            }
        },
    }
}

fn extract_kid_value(s: &[char]) -> (r: Option<Vec<char>>)
    ensures
        match r {
            None => kid_value(s@, 0) is None,
            Some(v) => kid_value(s@, 0) == Some(v@),
        },
{
    let n: usize = s.len();
    let lower: Vec<char> = text::to_ascii_lower(s);
    let mut from: usize = 0;
    loop
        invariant
            n == s@.len(),
            lower@ == text::ascii_lowercase(s@),
            from <= n,
            kid_value(s@, 0) == kid_value(s@, from as int),
        decreases n - from,
    {
        proof {
            reveal_strlit("<kid");
            reveal_strlit("</kid>");
        }
        let t: usize = match text::find(lower.as_slice(), "<kid", from) {
            None => return None,
            Some(t) => t,
        };
        let e: usize = match text::index_of(s, '>', t) {
            None => return None,
            Some(e) => e,
        };
        if let Some(v) = attr_value(vstd::slice::slice_subrange(s, t, e + 1), "value=") {
            return Some(v);
        }
        let c: usize = match text::find(lower.as_slice(), "</kid>", e + 1) {
            None => return None,
            Some(c) => c,
        };
        let v: Vec<char> = text::trim(vstd::slice::slice_subrange(s, e + 1, c));
        if v.len() > 0 {
            return Some(v);
        }
        from = e + 1;
    }
}

/// The common key identifier that the value of a `KID` element states.
pub fn playready_kid_value_to_common_hex(value: &str) -> (r: Option<String>)
    ensures
        match r {
            None => common_kid(value_bytes(value@)) is None,
            Some(k) => common_kid(value_bytes(value@)) == Some(k@),
        },
{
    let t: Vec<char> = text::trim(text::to_chars(value).as_slice());
    let trimmed: String = text::from_chars(t.as_slice());
    let raw: Option<Vec<u8>> = if t.len() == 32 {
        match hex_decode(trimmed.as_str()) {
            Ok(b) => Some(b),
            Err(_) => base64_decode(trimmed.as_str()),
        }
    } else {
        base64_decode(trimmed.as_str())
    };
    match raw {
        None => None,
        Some(b) => common_hex(b.as_slice()),
    }
}

/// The common key identifier of the bytes of a GUID.
pub fn common_hex(raw: &[u8]) -> (r: Option<String>)
    ensures
        match r {
            None => common_kid(Some(raw@)) is None,
            Some(k) => common_kid(Some(raw@)) == Some(k@),
        },
{
    if raw.len() != 16 {
        return None;
    }
    let common: [u8; 16] = [
        raw[3],
        raw[2],
        raw[1],
        raw[0],
        raw[5],
        raw[4],
        raw[7],
        raw[6],
        raw[8],
        raw[9],
        raw[10],
        raw[11],
        raw[12],
        raw[13],
        raw[14],
        raw[15],
    ];
    assert(common@ =~= guid_swapped(raw@));
    Some(hex_encode(common.as_slice()))
}

} // verus!
