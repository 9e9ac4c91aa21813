//! Text as a sequence of characters.

use vstd::prelude::*;

verus! {

broadcast use {vstd::string::group_string_axioms, vstd::seq::group_seq_axioms};

/// `String::push` appends one character.
pub assume_specification[ String::push ](s: &mut String, c: char)
    ensures
        final(s)@ == old(s)@.push(c),
;

/// The characters of `s`, in order.
pub fn to_chars(s: &str) -> (r: Vec<char>)
    ensures
        r@ == s@,
{
    let mut out: Vec<char> = Vec::new();
    for c in it: s.chars()
        invariant
            it.seq() == s@,
            out@ == s@.take(it.index() as int),
    {
        out.push(c);
    }
    out
}

/// The text made of the characters of `cs`.
pub fn from_chars(cs: &[char]) -> (r: String)
    ensures
        r@ == cs@,
{
    let mut out: String = String::new();
    for i in 0..cs.len()
        invariant
            out@ == cs@.take(i as int),
    {
        out.push(cs[i]);
        assert(cs@.take(i as int + 1) == cs@.take(i as int).push(cs@[i as int]));
    }
    assert(cs@.take(cs@.len() as int) == cs@);
    out
}

/// What `String::from_utf8_lossy` makes of a byte sequence.
pub uninterp spec fn utf8_lossy(bytes: Seq<u8>) -> Seq<char>;

/// Calls `String::from_utf8_lossy`, which decodes valid UTF-8 as it is and puts replacement
/// characters for what is not. Claimed: the text depends on the bytes alone, encodes to them where
/// they are valid UTF-8, and holds a replacement character where they are not.
#[verifier::external_body]
fn decode_lossy(bytes: &[u8]) -> (r: String)
    ensures
        r@ == utf8_lossy(bytes@),
        vstd::utf8::valid_utf8(bytes@) ==> vstd::utf8::encode_utf8(r@) == bytes@,
        !vstd::utf8::valid_utf8(bytes@) ==> r@.contains('\u{fffd}'),
{
    String::from_utf8_lossy(bytes).into_owned()
}

/// The text of bytes. Valid UTF-8 is decoded; another text holds a replacement character.
pub open spec fn lossy_text(bytes: Seq<u8>) -> Seq<char> {
    if vstd::utf8::valid_utf8(bytes) {
        vstd::utf8::decode_utf8(bytes)
    } else if utf8_lossy(bytes).contains('\u{fffd}') {
        utf8_lossy(bytes)
    } else {
        seq!['\u{fffd}']
    }
}

/// The text of bytes.
pub(crate) fn from_utf8_lossy(bytes: &[u8]) -> (r: String)
    ensures
        r@ == lossy_text(bytes@),
{
    let r: String = decode_lossy(bytes);
    proof {
        vstd::utf8::encode_utf8_decode_utf8(r@);
    }
    r
}

/// The characters of ASCII bytes.
pub open spec fn ascii_text(bytes: Seq<u8>) -> Seq<char> {
    bytes.map_values(|b: u8| b as char)
}

/// ASCII bytes are read as their characters.
pub proof fn lemma_ascii_is_read(bytes: Seq<u8>)
    requires
        forall|i: int| 0 <= i < bytes.len() ==> (#[trigger] bytes[i]) < 128,
    ensures
        lossy_text(bytes) == ascii_text(bytes),
{
    let t = ascii_text(bytes);
    assert(vstd::utf8::is_ascii_chars(t));
    vstd::utf8::is_ascii_chars_encode_utf8(t);
    assert(vstd::utf8::encode_utf8(t) =~= bytes) by {
        assert forall|i: int| 0 <= i < bytes.len() implies vstd::utf8::encode_utf8(t)[i]
            == bytes[i] by {
            assert(t[i] as u8 == bytes[i]);
        }
    }
    vstd::utf8::encode_utf8_valid_utf8(t);
    vstd::utf8::encode_utf8_decode_utf8(t);
}

/// Only its own characters are read as an ASCII text.
pub proof fn lemma_ascii_is_read_from(bytes: Seq<u8>, t: Seq<char>)
    requires
        vstd::utf8::is_ascii_chars(t),
        lossy_text(bytes) == t,
    ensures
        ascii_text(bytes) == t,
        bytes.len() == t.len(),
{
    if vstd::utf8::valid_utf8(bytes) {
        vstd::utf8::decode_utf8_encode_utf8(bytes);
        vstd::utf8::is_ascii_chars_encode_utf8(t);
        assert forall|i: int| 0 <= i < t.len() implies bytes[i] as char == t[i] by {
            assert('\0' <= t[i] && t[i] <= '\u{7f}');
            assert(t[i] as u8 == bytes[i]);
        }
        assert(ascii_text(bytes) =~= t);
    } else {
        if utf8_lossy(bytes).contains('\u{fffd}') {
            let j = choose|j: int| 0 <= j < t.len() && t[j] == '\u{fffd}';
            assert('\0' <= t[j] && t[j] <= '\u{7f}');
        } else {
            assert(t[0] == '\u{fffd}');
        }
    }
}

/// The decimal digit for `d`.
pub open spec fn digit(d: int) -> char {
    (48 + d) as char
}

/// `n` in decimal.
pub open spec fn decimal(n: int) -> Seq<char>
    decreases n,
{
    if n < 10 {
        seq![digit(n)]
    } else {
        decimal(n / 10).push(digit(n % 10))
    }
}

/// `n` in decimal, with at least two digits.
pub open spec fn decimal2(n: int) -> Seq<char> {
    if n < 10 {
        seq!['0'] + decimal(n)
    } else {
        decimal(n)
    }
}

/// The lower-case hexadecimal digit for `d`.
pub open spec fn hex_digit(d: int) -> char {
    if d < 10 {
        (48 + d) as char
    } else {
        (87 + d) as char
    }
}

/// Bytes in lower-case hexadecimal, two digits each.
pub open spec fn hex_lower(bytes: Seq<u8>) -> Seq<char> {
    Seq::new(
        2 * bytes.len(),
        |i: int|
            hex_digit(
                if i % 2 == 0 {
                    bytes[i / 2] as int / 16
                } else {
                    bytes[i / 2] as int % 16
                },
            ),
    )
}

/// Appends `n` in decimal.
pub fn push_decimal(out: &mut String, n: u64)
    ensures
        final(out)@ == old(out)@ + decimal(n as int),
    decreases n,
{
    if n >= 10 {
        push_decimal(out, n / 10);
    }
    out.push((48 + (n % 10) as u8) as char);
    assert(out@ =~= old(out)@ + decimal(n as int));
}

/// Appends `n` in decimal, with at least two digits.
pub fn push_decimal2(out: &mut String, n: u64)
    ensures
        final(out)@ == old(out)@ + decimal2(n as int),
{
    if n < 10 {
        out.push('0');
    }
    push_decimal(out, n);
    assert(out@ =~= old(out)@ + decimal2(n as int));
}

/// Appends text.
pub fn push_str(out: &mut String, s: &str)
    ensures
        final(out)@ == old(out)@ + s@,
{
    out.append(s);
}

fn push_hex_digit(out: &mut String, d: u8)
    requires
        d < 16,
    ensures
        final(out)@ == old(out)@.push(hex_digit(d as int)),
{
    if d < 10 {
        out.push((48 + d) as char);
    } else {
        out.push((87 + d) as char);
    }
}

/// `bytes` in lower-case hexadecimal.
pub fn to_hex(bytes: &[u8]) -> (r: String)
    ensures
        r@ == hex_lower(bytes@),
{
    let mut out: String = String::new();
    for i in 0..bytes.len()
        invariant
            out@ == hex_lower(bytes@).take(2 * i),
    {
        push_hex_digit(&mut out, bytes[i] / 16);
        push_hex_digit(&mut out, bytes[i] % 16);
        assert(out@ =~= hex_lower(bytes@).take(2 * (i + 1)));
    }
    assert(hex_lower(bytes@).take(2 * bytes@.len() as int) =~= hex_lower(bytes@));
    out
}

/// Whether two texts are equal.
pub fn same(a: &str, b: &str) -> (r: bool)
    ensures
        r == (a@ == b@),
{
    let x: Vec<char> = to_chars(a);
    let y: Vec<char> = to_chars(b);
    same_chars(x.as_slice(), y.as_slice())
}

/// Whether two character sequences are equal.
pub fn same_chars(a: &[char], b: &[char]) -> (r: bool)
    ensures
        r == (a@ == b@),
{
    if a.len() != b.len() {
        return false;
    }
    for i in 0..a.len()
        invariant
            a@.len() == b@.len(),
            forall|j: int| 0 <= j < i ==> a@[j] == b@[j],
    {
        if a[i] != b[i] {
            assert(a@[i as int] != b@[i as int]);
            return false;
        }
    }
    assert(a@ =~= b@);
    true
}

/// A text in quotation marks with its special characters escaped, as `str` shows itself for `{:?}`.
pub uninterp spec fn quoted(s: Seq<char>) -> Seq<char>;

/// Calls the `Debug` formatting of `str`. Claimed: the result depends on the text alone.
#[verifier::external_body]
pub(crate) fn quote(s: &str) -> (r: String)
    ensures
        r@ == quoted(s@),
{
    format!("{s:?}")
}

/// What `str::to_lowercase` makes of a text.
pub uninterp spec fn lowercase(s: Seq<char>) -> Seq<char>;

/// The lower-case letter of an ASCII letter; another character stays.
pub open spec fn ascii_lower(c: char) -> char {
    if 'A' <= c && c <= 'Z' {
        (c as int + 32) as char
    } else {
        c
    }
}

/// A text with each ASCII letter in lower case.
pub open spec fn ascii_lowercase(s: Seq<char>) -> Seq<char> {
    s.map_values(|c: char| ascii_lower(c))
}

/// A text in lower case.
pub open spec fn lowered(s: Seq<char>) -> Seq<char> {
    if vstd::utf8::is_ascii_chars(s) {
        ascii_lowercase(s)
    } else {
        lowercase(s)
    }
}

/// Calls `str::to_lowercase`. Claimed: the result depends on the text alone, and on ASCII text
/// it maps `A` to `Z` onto `a` to `z` and keeps the rest.
#[verifier::external_body]
pub(crate) fn to_lowercase(s: &str) -> (r: String)
    ensures
        r@ == lowercase(s@),
        vstd::utf8::is_ascii_chars(s@) ==> r@ == ascii_lowercase(s@),
{
    s.to_lowercase()
}

/// Whether `s` starts with `p`.
pub fn starts_with(s: &[char], p: &str) -> (r: bool)
    ensures
        r == p@.is_prefix_of(s@),
{
    let q: Vec<char> = to_chars(p);
    if q.len() > s.len() {
        return false;
    }
    for i in 0..q.len()
        invariant
            q@ == p@,
            q@.len() <= s@.len(),
            forall|j: int| 0 <= j < i ==> q@[j] == s@[j],
    {
        if q[i] != s[i] {
            assert(p@[i as int] != s@.subrange(0, p@.len() as int)[i as int]);
            return false;
        }
    }
    assert(p@ =~= s@.subrange(0, p@.len() as int));
    true
}

/// The characters that Unicode counts as white space.
pub open spec fn white(c: char) -> bool {
    ||| '\u{9}' <= c && c <= '\u{d}'
    ||| c == ' '
    ||| c == '\u{85}'
    ||| c == '\u{a0}'
    ||| c == '\u{1680}'
    ||| '\u{2000}' <= c && c <= '\u{200a}'
    ||| c == '\u{2028}'
    ||| c == '\u{2029}'
    ||| c == '\u{202f}'
    ||| c == '\u{205f}'
    ||| c == '\u{3000}'
}

/// Whether a character is white space.
pub fn is_white(c: char) -> (r: bool)
    ensures
        r == white(c),
{
    ('\u{9}' <= c && c <= '\u{d}') || c == ' ' || c == '\u{85}' || c == '\u{a0}' || c == '\u{1680}'
        || ('\u{2000}' <= c && c <= '\u{200a}') || c == '\u{2028}' || c == '\u{2029}' || c
        == '\u{202f}' || c == '\u{205f}' || c == '\u{3000}'
}

/// A text without the white space in front.
pub open spec fn trim_start(s: Seq<char>) -> Seq<char>
    decreases s.len(),
{
    if s.len() > 0 && white(s[0]) {
        trim_start(s.skip(1))
    } else {
        s
    }
}

/// A text without the white space at its end.
pub open spec fn trim_end(s: Seq<char>) -> Seq<char>
    decreases s.len(),
{
    if s.len() > 0 && white(s.last()) {
        trim_end(s.drop_last())
    } else {
        s
    }
}

/// A text without the white space around it.
pub open spec fn trimmed(s: Seq<char>) -> Seq<char> {
    trim_end(trim_start(s))
}

proof fn lemma_trim_end_shape(s: Seq<char>)
    ensures
        trim_end(s).len() <= s.len(),
        trim_end(s) == s.take(trim_end(s).len() as int),
        trim_end(s).len() > 0 ==> !white(trim_end(s).last()),
    decreases s.len(),
{
    if s.len() > 0 && white(s.last()) {
        lemma_trim_end_shape(s.drop_last());
        let n = trim_end(s).len() as int;
        assert(s.drop_last().take(n) =~= s.take(n));
    } else {
        assert(s.take(s.len() as int) =~= s);
    }
}

proof fn lemma_trim_start_shape(s: Seq<char>)
    ensures
        trim_start(s).len() <= s.len(),
        trim_start(s) == s.skip(s.len() - trim_start(s).len()),
        trim_start(s).len() > 0 ==> !white(trim_start(s)[0]),
    decreases s.len(),
{
    if s.len() > 0 && white(s[0]) {
        lemma_trim_start_shape(s.skip(1));
        let n = s.len() - trim_start(s).len();
        assert(s.skip(1).skip(n - 1) =~= s.skip(n));
    } else {
        assert(s.skip(0) =~= s);
    }
}

/// White space at the end of a text makes no difference to the trimmed text.
pub proof fn lemma_trimmed_end(s: Seq<char>)
    requires
        s.len() > 0,
        white(s.last()),
    ensures
        trimmed(s) == trimmed(s.drop_last()),
    decreases s.len(),
{
    let d = s.drop_last();
    if s.len() == 1 {
        assert(s.skip(1) =~= Seq::<char>::empty());
        assert(d =~= Seq::<char>::empty());
    } else if white(s[0]) {
        lemma_trimmed_end(s.skip(1));
        assert(s.skip(1).drop_last() =~= d.skip(1));
    }
}

/// A trimmed text has no white space at its ends, and nothing that the text does not hold.
pub proof fn lemma_trimmed_shape(s: Seq<char>)
    ensures
        trimmed(s).len() > 0 ==> !white(trimmed(s)[0]) && !white(trimmed(s).last()),
        forall|c: char| #[trigger] trimmed(s).contains(c) ==> s.contains(c),
{
    let a = trim_start(s);
    lemma_trim_start_shape(s);
    lemma_trim_end_shape(a);
    assert forall|c: char| #[trigger] trimmed(s).contains(c) implies s.contains(c) by {
        let i = choose|i: int| 0 <= i < trimmed(s).len() && trimmed(s)[i] == c;
        assert(trimmed(s)[i] == a[i]);
        assert(a[i] == s[s.len() - a.len() + i]);
    }
}

/// Trimming twice is trimming once.
pub proof fn law_trim_is_idempotent(s: Seq<char>)
    ensures
        trimmed(trimmed(s)) == trimmed(s),
{
    let a = trim_start(s);
    let t = trimmed(s);
    lemma_trim_start_shape(s);
    lemma_trim_end_shape(a);
    if t.len() > 0 {
        assert(t[0] == a[0]);
        assert(trim_start(t) == t);
    }
}

/// A text without the white space around it.
pub fn trim(s: &[char]) -> (r: Vec<char>)
    ensures
        r@ == trimmed(s@),
{
    let n: usize = s.len();
    let mut a: usize = 0;
    assert(s@.skip(0) =~= s@);
    while a < n && is_white(s[a])
        invariant
            n == s@.len(),
            a <= n,
            trim_start(s@) == trim_start(s@.skip(a as int)),
        decreases n - a,
    {
        assert(s@.skip(a as int).skip(1) =~= s@.skip(a as int + 1));
        a = a + 1;
    }
    let mut b: usize = n;
    let ghost front = s@.skip(a as int);
    assert(trim_start(s@) == front);
    assert(s@.subrange(a as int, n as int) =~= front);
    while b > a && is_white(s[b - 1])
        invariant
            n == s@.len(),
            a <= b <= n,
            trim_end(front) == trim_end(s@.subrange(a as int, b as int)),
        decreases b - a,
    {
        assert(s@.subrange(a as int, b as int).drop_last() =~= s@.subrange(a as int, b - 1));
        b = b - 1;
    }
    copy(vstd::slice::slice_subrange(s, a, b))
}

/// A copy of `s`.
pub fn copy(s: &[char]) -> (r: Vec<char>)
    ensures
        r@ == s@,
{
    let mut out: Vec<char> = Vec::new();
    for i in 0..s.len()
        invariant
            out@ == s@.take(i as int),
    {
        out.push(s[i]);
        assert(s@.take(i as int + 1) =~= s@.take(i as int).push(s@[i as int]));
    }
    assert(s@.take(s@.len() as int) =~= s@);
    out
}

/// The first place from `i` on at which `p` stands in `s`.
pub open spec fn find_at(s: Seq<char>, p: Seq<char>, i: int) -> Option<int>
    decreases s.len() + 1 - i,
{
    if i < 0 || i + p.len() > s.len() {
        None
    } else if s.subrange(i, i + p.len()) == p {
        Some(i)
    } else {
        find_at(s, p, i + 1)
    }
}

/// A text that stands nowhere from `i` on is not found.
pub proof fn lemma_not_found(s: Seq<char>, p: Seq<char>, i: int)
    requires
        0 <= i,
        forall|j: int| i <= j && j + p.len() <= s.len() ==> #[trigger] s.subrange(j, j + p.len()) != p,
    ensures
        find_at(s, p, i) is None,
    decreases s.len() + 1 - i,
{
    if i + p.len() <= s.len() {
        assert(s.subrange(i, i + p.len()) != p);
        lemma_not_found(s, p, i + 1);
    }
}

/// Whether `p` stands in `s`.
pub open spec fn contains(s: Seq<char>, p: Seq<char>) -> bool {
    find_at(s, p, 0) is Some
}

/// The first place from `from` on at which `p` stands in `s`.
pub fn find(s: &[char], p: &str, from: usize) -> (r: Option<usize>)
    ensures
        match r {
            None => find_at(s@, p@, from as int) is None,
            Some(i) => find_at(s@, p@, from as int) == Some(i as int) && from <= i && i + p@.len()
                <= s@.len(),
        },
{
    let q: Vec<char> = to_chars(p);
    let n: usize = s.len();
    let m: usize = q.len();
    let mut i: usize = from;
    while i <= n && n - i >= m
        invariant
            n == s@.len(),
            q@ == p@,
            m == p@.len(),
            from <= i,
            from <= n ==> i <= n + 1,
            find_at(s@, p@, from as int) == find_at(s@, p@, i as int),
        decreases n + 1 - i,
    {
        if same_chars(vstd::slice::slice_subrange(s, i, i + m), q.as_slice()) {
            return Some(i);
        }
        if i == n {
            assert(find_at(s@, p@, n + 1) is None);
            return None;
        }
        i = i + 1;
    }
    None
}

/// Whether `p` stands in `s`.
pub fn has(s: &[char], p: &str) -> (r: bool)
    ensures
        r == contains(s@, p@),
{
    find(s, p, 0).is_some()
}

/// The first place from `i` on at which the character `c` stands in `s`.
pub open spec fn index_from(s: Seq<char>, c: char, i: int) -> Option<int>
    decreases s.len() - i,
{
    if i < 0 || i >= s.len() {
        None
    } else if s[i] == c {
        Some(i)
    } else {
        index_from(s, c, i + 1)
    }
}

/// The first place from `from` on at which the character `c` stands in `s`.
pub fn index_of(s: &[char], c: char, from: usize) -> (r: Option<usize>)
    ensures
        match r {
            None => index_from(s@, c, from as int) is None,
            Some(i) => index_from(s@, c, from as int) == Some(i as int) && from <= i < s@.len()
                && s@[i as int] == c,
        },
{
    let n: usize = s.len();
    let mut i: usize = from;
    while i < n
        invariant
            n == s@.len(),
            from <= i,
            index_from(s@, c, from as int) == index_from(s@, c, i as int),
        decreases n - i,
    {
        if s[i] == c {
            return Some(i);
        }
        i = i + 1;
    }
    None
}

/// The first `c` from `i` on is one with no `c` before it.
pub proof fn lemma_index_shape(s: Seq<char>, c: char, i: int)
    requires
        0 <= i,
    ensures
        match index_from(s, c, i) {
            Some(e) => i <= e < s.len() && s[e] == c && forall|j: int|
                i <= j < e ==> #[trigger] s[j] != c,
            None => forall|j: int| i <= j < s.len() ==> #[trigger] s[j] != c,
        },
    decreases s.len() - i,
{
    if i < s.len() && s[i] != c {
        lemma_index_shape(s, c, i + 1);
    }
}

/// A `c` with no `c` before it is the first one.
pub proof fn lemma_index_is(s: Seq<char>, c: char, i: int, e: int)
    requires
        0 <= i <= e < s.len(),
        s[e] == c,
        forall|j: int| i <= j < e ==> #[trigger] s[j] != c,
    ensures
        index_from(s, c, i) == Some(e),
    decreases e - i,
{
    if i < e {
        lemma_index_is(s, c, i + 1, e);
    }
}

/// What stands behind the last `c`, or all where there is none.
pub open spec fn after_last(s: Seq<char>, c: char) -> Seq<char>
    decreases s.len(),
{
    match index_from(s, c, 0) {
        Some(i) => if 0 <= i < s.len() {
            after_last(s.skip(i + 1), c)
        } else {
            s
        },
        None => s,
    }
}

/// What stands behind the last `c`, or all where there is none.
pub fn behind_last(s: &[char], c: char) -> (r: Vec<char>)
    ensures
        r@ == after_last(s@, c),
{
    let n: usize = s.len();
    let mut from: usize = 0;
    assert(s@.skip(0) =~= s@);
    loop
        invariant
            n == s@.len(),
            from <= n,
            after_last(s@, c) == after_last(s@.skip(from as int), c),
        decreases n - from,
    {
        let rest: &[char] = vstd::slice::slice_subrange(s, from, n);
        assert(rest@ =~= s@.skip(from as int));
        match index_of(rest, c, 0) {
            None => {
                return copy(rest);
            },
            Some(i) => {
                assert(rest@.skip(i as int + 1) =~= s@.skip(from + i + 1));
                from = from + i + 1;
            },
        }
    }
}

/// A text without the character `c`.
pub open spec fn without(s: Seq<char>, c: char) -> Seq<char>
    decreases s.len(),
{
    if s.len() == 0 {
        s
    } else if s.last() == c {
        without(s.drop_last(), c)
    } else {
        without(s.drop_last(), c).push(s.last())
    }
}

/// A text without the character `c`.
pub fn remove(s: &[char], c: char) -> (r: Vec<char>)
    ensures
        r@ == without(s@, c),
{
    let mut out: Vec<char> = Vec::new();
    for i in 0..s.len()
        invariant
            out@ == without(s@.take(i as int), c),
    {
        assert(s@.take(i as int + 1).drop_last() =~= s@.take(i as int));
        if s[i] != c {
            out.push(s[i]);
        }
    }
    assert(s@.take(s@.len() as int) =~= s@);
    out
}

/// The lines of a text from `i` on: they end at a line feed, which a carriage return may precede.
pub open spec fn lines_from(s: Seq<char>, i: int) -> Seq<Seq<char>>
    decreases s.len() - i,
{
    if i < 0 || i >= s.len() {
        Seq::empty()
    } else {
        match index_from(s, '\n', i) {
            None => seq![s.skip(i)],
            Some(e) => if i <= e < s.len() {
                let end = if e > i && s[e - 1] == '\r' {
                    e - 1
                } else {
                    e
                };
                seq![s.subrange(i, end)] + lines_from(s, e + 1)
            } else {
                Seq::empty()
            },
        }
    }
}

/// The lines of a text.
pub open spec fn lines_of(s: Seq<char>) -> Seq<Seq<char>> {
    lines_from(s, 0)
}

proof fn lemma_index_skip(s: Seq<char>, c: char, k: int, i: int)
    requires
        0 <= k <= s.len(),
        0 <= i,
    ensures
        index_from(s.skip(k), c, i) == match index_from(s, c, k + i) {
            Some(e) => Some(e - k),
            None => None,
        },
    decreases s.len() - i,
{
    if i < s.len() - k {
        assert(s.skip(k)[i] == s[k + i]);
        lemma_index_skip(s, c, k, i + 1);
    }
}

/// The lines from a place on are the lines of what stands there.
pub proof fn lemma_lines_skip(s: Seq<char>, k: int, i: int)
    requires
        0 <= k <= s.len(),
        0 <= i,
    ensures
        lines_from(s.skip(k), i) == lines_from(s, k + i),
    decreases s.len() - i,
{
    let r = s.skip(k);
    if i < r.len() {
        lemma_index_skip(s, '\n', k, i);
        lemma_index_shape(s, '\n', k + i);
        match index_from(r, '\n', i) {
            None => {
                assert(r.skip(i) =~= s.skip(k + i));
            },
            Some(e) => {
                assert(r[e] == s[k + e]);
                if e > i {
                    assert(r[e - 1] == s[k + e - 1]);
                }
                let end = if e > i && r[e - 1] == '\r' {
                    e - 1
                } else {
                    e
                };
                assert(r.subrange(i, end) =~= s.subrange(k + i, k + end));
                lemma_lines_skip(s, k, e + 1);
            },
        }
    }
}

/// A line without the carriage return at its end.
pub open spec fn without_return(s: Seq<char>) -> Seq<char> {
    if s.len() > 0 && s.last() == '\r' {
        s.drop_last()
    } else {
        s
    }
}

/// Up to its first line feed a text is one line.
pub proof fn lemma_first_line(a: Seq<char>, b: Seq<char>)
    requires
        !a.contains('\n'),
    ensures
        lines_of(a + seq!['\n'] + b) == seq![without_return(a)] + lines_of(b),
{
    let c = a + seq!['\n'] + b;
    let e = a.len() as int;
    assert(c[e] == '\n');
    assert forall|j: int| 0 <= j < e implies #[trigger] c[j] != '\n' by {
        assert(c[j] == a[j]);
    }
    lemma_index_is(c, '\n', 0, e);
    if e > 0 {
        assert(c[e - 1] == a.last());
    }
    let end = if e > 0 && c[e - 1] == '\r' {
        e - 1
    } else {
        e
    };
    assert(c.subrange(0, end) =~= without_return(a));
    lemma_lines_skip(c, e + 1, 0);
    assert(c.skip(e + 1) =~= b);
}

/// A text without a line feed is one line, or none where it is empty.
pub proof fn lemma_only_line(a: Seq<char>)
    requires
        !a.contains('\n'),
    ensures
        lines_of(a) == if a.len() == 0 {
            Seq::<Seq<char>>::empty()
        } else {
            seq![a]
        },
{
    lemma_index_shape(a, '\n', 0);
    assert(a.skip(0) =~= a);
}

/// Texts that are joined start with the first of them.
pub proof fn lemma_joined_head(p: Seq<Seq<char>>, sep: Seq<char>)
    requires
        p.len() >= 2,
    ensures
        joined(p, sep) == p[0] + sep + joined(p.skip(1), sep),
    decreases p.len(),
{
    reveal_with_fuel(joined, 2);
    let d = p.drop_last();
    if p.len() == 2 {
        assert(d[0] == p[0]);
        assert(p.skip(1)[0] == p.last());
    } else {
        lemma_joined_head(d, sep);
        assert(d.skip(1) =~= p.skip(1).drop_last());
        assert(p.skip(1).last() == p.last());
        assert(p[0] + sep + joined(d.skip(1), sep) + sep + p.last() =~= p[0] + sep + (joined(
            d.skip(1),
            sep,
        ) + sep + p.last()));
    }
}

/// Lines that are joined by line feeds are read back: none is blank, holds a line feed or ends in
/// a carriage return.
pub proof fn law_joined_lines_are_read_back(p: Seq<Seq<char>>)
    requires
        forall|i: int|
            0 <= i < p.len() ==> (#[trigger] p[i]).len() > 0 && !p[i].contains('\n')
                && p[i].last() != '\r',
    ensures
        lines_of(joined(p, seq!['\n'])) == p,
    decreases p.len(),
{
    if p.len() == 1 {
        lemma_only_line(p[0]);
        assert(seq![p[0]] =~= p);
    } else if p.len() > 1 {
        let r = p.skip(1);
        lemma_joined_head(p, seq!['\n']);
        lemma_first_line(p[0], joined(r, seq!['\n']));
        assert forall|i: int| 0 <= i < r.len() implies (#[trigger] r[i]).len() > 0
            && !r[i].contains('\n') && r[i].last() != '\r' by {
            assert(r[i] == p[i + 1]);
        }
        law_joined_lines_are_read_back(r);
        assert(seq![p[0]] + r =~= p);
    } else {
        assert(lines_of(joined(p, seq!['\n'])) =~= p);
    }
}

/// What a list of texts holds.
pub open spec fn char_views(v: Seq<Vec<char>>) -> Seq<Seq<char>> {
    v.map_values(|x: Vec<char>| x@)
}

/// The lines of a text.
pub fn split_lines(s: &str) -> (r: Vec<Vec<char>>)
    ensures
        char_views(r@) == lines_of(s@),
{
    let cs: Vec<char> = to_chars(s);
    let n: usize = cs.len();
    let mut out: Vec<Vec<char>> = Vec::new();
    let mut i: usize = 0;
    let ghost all = lines_of(s@);
    assert(char_views(out@) + all =~= all);
    while i < n
        invariant
            cs@ == s@,
            n == s@.len(),
            i <= n,
            char_views(out@) + lines_from(s@, i as int) == all,
        decreases n - i,
    {
        let ghost before = out@;
        match index_of(cs.as_slice(), '\n', i) {
            None => {
                let line: Vec<char> = copy(vstd::slice::slice_subrange(cs.as_slice(), i, n));
                out.push(line);
                proof {
                    assert(line@ =~= s@.skip(i as int));
                    assert(char_views(out@) =~= char_views(before).push(line@));
                    assert(char_views(out@) =~= all);
                    assert(lines_from(s@, n as int) =~= Seq::<Seq<char>>::empty());
                    assert(char_views(out@) + lines_from(s@, n as int) =~= all);
                }
                i = n;
            },
            Some(e) => {
                let end: usize = if e > i && cs[e - 1] == '\r' {
                    e - 1
                } else {
                    e
                };
                let line: Vec<char> = copy(vstd::slice::slice_subrange(cs.as_slice(), i, end));
                out.push(line);
                proof {
                    let rest = lines_from(s@, e + 1);
                    assert(char_views(out@) =~= char_views(before).push(line@));
                    assert(char_views(out@) + rest =~= char_views(before) + (seq![line@] + rest));
                }
                i = e + 1;
            },
        }
    }
    assert(char_views(out@) =~= all);
    out
}

/// The value of a hexadecimal digit.
pub open spec fn hex_value(c: char) -> Option<int> {
    if '0' <= c && c <= '9' {
        Some(c as int - 48)
    } else if 'a' <= c && c <= 'f' {
        Some(c as int - 87)
    } else if 'A' <= c && c <= 'F' {
        Some(c as int - 55)
    } else {
        None
    }
}

/// Whether a text is made of pairs of hexadecimal digits.
pub open spec fn is_hex(s: Seq<char>) -> bool {
    &&& s.len() % 2 == 0
    &&& forall|i: int| 0 <= i < s.len() ==> hex_value(#[trigger] s[i]) is Some
}

/// The bytes that pairs of hexadecimal digits spell.
pub open spec fn hex_bytes(s: Seq<char>) -> Seq<u8> {
    Seq::new(
        s.len() / 2,
        |i: int| (hex_value(s[2 * i])->0 * 16 + hex_value(s[2 * i + 1])->0) as u8,
    )
}

/// The value of a hexadecimal digit.
pub fn digit16(c: char) -> (r: Option<u8>)
    ensures
        match r {
            None => hex_value(c) is None,
            Some(v) => hex_value(c) == Some(v as int) && v < 16,
        },
{
    let n: u32 = c as u32;
    if n >= 48 && n <= 57 {
        Some((n - 48) as u8)
    } else if n >= 97 && n <= 102 {
        Some((n - 87) as u8)
    } else if n >= 65 && n <= 70 {
        Some((n - 55) as u8)
    } else {
        None
    }
}

/// The bytes that pairs of hexadecimal digits spell.
pub fn from_hex(s: &[char]) -> (r: Option<Vec<u8>>)
    ensures
        match r {
            None => !is_hex(s@),
            Some(b) => is_hex(s@) && b@ == hex_bytes(s@),
        },
{
    let n: usize = s.len();
    if n % 2 != 0 {
        return None;
    }
    let mut out: Vec<u8> = Vec::new();
    let mut i: usize = 0;
    while i < n
        invariant
            n == s@.len(),
            n % 2 == 0,
            i <= n,
            i % 2 == 0,
            forall|j: int| 0 <= j < i ==> hex_value(#[trigger] s@[j]) is Some,
            out@ == hex_bytes(s@).take(i as int / 2),
        decreases n - i,
    {
        let hi: u8 = match digit16(s[i]) {
            Some(v) => v,
            None => {
                assert(hex_value(s@[i as int]) is None);
                return None;
            },
        };
        let lo: u8 = match digit16(s[i + 1]) {
            Some(v) => v,
            None => {
                assert(hex_value(s@[i as int + 1]) is None);
                return None;
            },
        };
        out.push(hi * 16 + lo);
        assert(out@ =~= hex_bytes(s@).take(i as int / 2 + 1));
        i = i + 2;
    }
    assert(hex_bytes(s@).take(n as int / 2) =~= hex_bytes(s@));
    Some(out)
}

/// Hexadecimal digits written for bytes are read back.
pub proof fn law_hex_round_trip(b: Seq<u8>)
    ensures
        is_hex(hex_lower(b)),
        hex_bytes(hex_lower(b)) == b,
{
    let h = hex_lower(b);
    assert forall|i: int| 0 <= i < h.len() implies hex_value(#[trigger] h[i]) is Some by {}
    assert forall|i: int| 0 <= i < b.len() implies hex_bytes(h)[i] == b[i] by {
        assert(h[2 * i] == hex_digit(b[i] as int / 16));
        assert(h[2 * i + 1] == hex_digit(b[i] as int % 16));
    }
    assert(hex_bytes(h) =~= b);
}

/// A text in lower case by ASCII.
pub fn to_ascii_lower(s: &[char]) -> (r: Vec<char>)
    ensures
        r@ == ascii_lowercase(s@),
{
    let mut out: Vec<char> = Vec::new();
    for i in 0..s.len()
        invariant
            out@ == ascii_lowercase(s@).take(i as int),
    {
        let c: char = s[i];
        if 'A' <= c && c <= 'Z' {
            out.push((c as u8 + 32) as char);
        } else {
            out.push(c);
        }
        assert(out@ =~= ascii_lowercase(s@).take(i as int + 1));
    }
    assert(ascii_lowercase(s@).take(s@.len() as int) =~= ascii_lowercase(s@));
    out
}

/// The number that decimal digits spell.
pub open spec fn digits_value(s: Seq<char>) -> int
    decreases s.len(),
{
    if s.len() == 0 {
        0
    } else {
        digits_value(s.drop_last()) * 10 + (s.last() as int - 48)
    }
}

/// Whether a text has at least one character and only decimal digits.
pub open spec fn is_digits(s: Seq<char>) -> bool {
    &&& s.len() > 0
    &&& forall|i: int| 0 <= i < s.len() ==> '0' <= #[trigger] s[i] && s[i] <= '9'
}

/// A text without one plus sign in front.
pub open spec fn unsigned_part(s: Seq<char>) -> Seq<char> {
    if s.len() > 0 && s[0] == '+' {
        s.skip(1)
    } else {
        s
    }
}

/// The number up to `max` that a text states: decimal digits, which a plus sign may precede.
pub open spec fn parsed_number(s: Seq<char>, max: int) -> Option<int> {
    let d = unsigned_part(s);
    if is_digits(d) && digits_value(d) <= max {
        Some(digits_value(d))
    } else {
        None
    }
}

proof fn lemma_digits_value_grows(s: Seq<char>, n: int)
    requires
        is_digits(s),
        0 <= n <= s.len(),
    ensures
        0 <= digits_value(s.take(n)) <= digits_value(s),
    decreases s.len(),
{
    if n == s.len() {
        assert(s.take(n) =~= s);
        lemma_digits_value_nonneg(s);
    } else if s.len() > 1 {
        let t = s.drop_last();
        assert forall|i: int| 0 <= i < t.len() implies '0' <= #[trigger] t[i] && t[i] <= '9' by {
            assert(t[i] == s[i]);
        }
        lemma_digits_value_grows(t, n);
        assert(t.take(n) =~= s.take(n));
        assert('0' <= s[s.len() - 1]);
        lemma_digits_value_nonneg(t);
    } else {
        assert(s.take(0) =~= Seq::<char>::empty());
        assert('0' <= s[s.len() - 1]);
        assert(s.drop_last() =~= Seq::<char>::empty());
    }
}

pub proof fn lemma_digits_value_nonneg(s: Seq<char>)
    requires
        forall|i: int| 0 <= i < s.len() ==> '0' <= #[trigger] s[i] && s[i] <= '9',
    ensures
        digits_value(s) >= 0,
    decreases s.len(),
{
    if s.len() > 0 {
        let t = s.drop_last();
        assert forall|i: int| 0 <= i < t.len() implies '0' <= #[trigger] t[i] && t[i] <= '9' by {
            assert(t[i] == s[i]);
        }
        lemma_digits_value_nonneg(t);
        assert('0' <= s[s.len() - 1]);
    }
}

/// A number is read back from its decimal digits.
pub proof fn law_decimal_round_trip(n: int)
    requires
        0 <= n,
    ensures
        is_digits(decimal(n)),
        digits_value(decimal(n)) == n,
        forall|max: int| n <= max ==> #[trigger] parsed_number(decimal(n), max) == Some(n),
    decreases n,
{
    let d = decimal(n);
    if n < 10 {
        assert(d.drop_last() =~= Seq::<char>::empty());
        assert(digits_value(Seq::<char>::empty()) == 0);
        assert(d.last() as int == 48 + n);
        assert(digits_value(d) == digits_value(d.drop_last()) * 10 + (d.last() as int - 48));
    } else {
        law_decimal_round_trip(n / 10);
        let t = decimal(n / 10);
        assert(d.drop_last() =~= t);
        assert(d.last() as int == 48 + n % 10);
        assert(digits_value(d) == digits_value(t) * 10 + (d.last() as int - 48));
        assert forall|i: int| 0 <= i < d.len() implies '0' <= #[trigger] d[i] && d[i] <= '9' by {
            if i < t.len() {
                assert(d[i] == t[i]);
            }
        }
    }
    assert('0' <= d[0] && d[0] <= '9');
}

/// The code point of a character.
pub fn code(c: char) -> (r: u32)
    ensures
        r == c as int,
{
    c as u32
}

/// The number up to `max` that a text states.
pub fn parse_number(s: &[char], max: u64) -> (r: Option<u64>)
    ensures
        match r {
            None => parsed_number(s@, max as int) is None,
            Some(v) => parsed_number(s@, max as int) == Some(v as int) && v <= max,
        },
{
    let n: usize = s.len();
    let from: usize = if n > 0 && s[0] == '+' {
        1
    } else {
        0
    };
    let ghost d = unsigned_part(s@);
    assert(d =~= s@.skip(from as int));
    if from == n {
        return None;
    }
    let mut v: u64 = 0;
    let mut i: usize = from;
    while i < n
        invariant
            n == s@.len(),
            from <= i <= n,
            d == s@.skip(from as int),
            d == unsigned_part(s@),
            d.len() > 0,
            forall|j: int| 0 <= j < i - from ==> '0' <= #[trigger] d[j] && d[j] <= '9',
            v == digits_value(d.take(i - from)),
            v <= max,
        decreases n - i,
    {
        let c: char = s[i];
        let k: u32 = code(c);
        assert(c == d[i - from]);
        assert(d.take(i - from + 1).last() == c);
        if k < 48 || k > 57 {
            return None;
        }
        let wide: u128 = v as u128 * 10 + (k - 48) as u128;
        assert(d.take(i - from + 1).drop_last() =~= d.take(i - from));
        assert(wide == digits_value(d.take(i - from + 1)));
        if wide > max as u128 {
            proof {
                if is_digits(d) {
                    lemma_digits_value_grows(d, i - from + 1);
                }
            }
            return None;
        }
        v = wide as u64;
        i = i + 1;
    }
    assert(d.take(n - from) =~= d);
    Some(v)
}

/// A copy of a text.
pub fn clone_text(s: &str) -> (r: String)
    ensures
        r@ == s@,
{
    s.to_owned()
}

/// The text behind an optional reference.
pub open spec fn ref_text(s: Option<&str>) -> Option<Seq<char>> {
    match s {
        Some(t) => Some(t@),
        None => None,
    }
}

/// A copy of a text that may be missing.
pub fn copy_ref(s: Option<&str>) -> (r: Option<String>)
    ensures
        opt_text(r) == ref_text(s),
{
    match s {
        Some(t) => Some(clone_text(t)),
        None => None,
    }
}

/// A reference to a text that may be missing.
pub fn as_ref(s: &Option<String>) -> (r: Option<&str>)
    ensures
        ref_text(r) == opt_text(*s),
{
    match s {
        Some(t) => Some(t.as_str()),
        None => None,
    }
}

/// The text inside an optional string.
pub open spec fn opt_text(s: Option<String>) -> Option<Seq<char>> {
    match s {
        Some(t) => Some(t@),
        None => None,
    }
}

/// A copy of an optional text.
pub fn clone_opt(s: &Option<String>) -> (r: Option<String>)
    ensures
        opt_text(r) == opt_text(*s),
{
    match s {
        Some(t) => Some(clone_text(t.as_str())),
        None => None,
    }
}

/// The texts of a list.
pub open spec fn texts(v: Seq<String>) -> Seq<Seq<char>> {
    v.map_values(|x: String| x@)
}

/// A copy of a list of texts.
pub fn clone_texts(v: &[String]) -> (r: Vec<String>)
    ensures
        texts(r@) == texts(v@),
{
    let mut out: Vec<String> = Vec::new();
    for i in 0..v.len()
        invariant
            texts(out@) == texts(v@).take(i as int),
    {
        let ghost before = out@;
        let one: String = clone_text(v[i].as_str());
        out.push(one);
        assert(texts(out@) =~= texts(before).push(one@));
        assert(texts(v@).take(i as int + 1) =~= texts(v@).take(i as int).push(one@));
    }
    assert(texts(v@).take(v@.len() as int) =~= texts(v@));
    out
}

/// Whether a text is in a list.
pub fn listed(v: &[String], s: &str) -> (r: bool)
    ensures
        r == texts(v@).contains(s@),
{
    for i in 0..v.len()
        invariant
            forall|j: int| 0 <= j < i ==> texts(v@)[j] != s@,
    {
        if same(v[i].as_str(), s) {
            assert(texts(v@)[i as int] == s@);
            return true;
        }
    }
    false
}

/// The upper-case letter of an ASCII letter; another character stays.
pub open spec fn ascii_upper(c: char) -> char {
    if 'a' <= c && c <= 'z' {
        (c as int - 32) as char
    } else {
        c
    }
}

/// A text with each ASCII letter in upper case.
pub open spec fn ascii_uppercase(s: Seq<char>) -> Seq<char> {
    s.map_values(|c: char| ascii_upper(c))
}

/// A text in upper case by ASCII.
pub fn to_ascii_upper(s: &[char]) -> (r: Vec<char>)
    ensures
        r@ == ascii_uppercase(s@),
{
    let mut out: Vec<char> = Vec::new();
    for i in 0..s.len()
        invariant
            out@ == ascii_uppercase(s@).take(i as int),
    {
        let c: char = s[i];
        if 'a' <= c && c <= 'z' {
            out.push((c as u8 - 32) as char);
        } else {
            out.push(c);
        }
        assert(out@ =~= ascii_uppercase(s@).take(i as int + 1));
    }
    assert(ascii_uppercase(s@).take(s@.len() as int) =~= ascii_uppercase(s@));
    out
}

/// What stands behind a prefix.
pub open spec fn behind(s: Seq<char>, p: Seq<char>) -> Option<Seq<char>> {
    if p.is_prefix_of(s) {
        Some(s.skip(p.len() as int))
    } else {
        None
    }
}

/// What stands behind a prefix.
pub fn strip_prefix(s: &[char], p: &str) -> (r: Option<Vec<char>>)
    ensures
        match r {
            None => behind(s@, p@) is None,
            Some(v) => behind(s@, p@) == Some(v@),
        },
{
    if !starts_with(s, p) {
        return None;
    }
    let n: usize = to_chars(p).len();
    let rest: &[char] = vstd::slice::slice_subrange(s, n, s.len());
    assert(rest@ =~= s@.skip(n as int));
    Some(copy(rest))
}

/// Whether characters spell a text.
pub fn is(s: &[char], t: &str) -> (r: bool)
    ensures
        r == (s@ == t@),
{
    same_chars(s, to_chars(t).as_slice())
}

/// A text without the character `c` repeated in front.
pub open spec fn skip_char(s: Seq<char>, c: char) -> Seq<char>
    decreases s.len(),
{
    if s.len() > 0 && s[0] == c {
        skip_char(s.skip(1), c)
    } else {
        s
    }
}

/// A text without the character `c` repeated in front.
pub fn skip_leading(s: &[char], c: char) -> (r: Vec<char>)
    ensures
        r@ == skip_char(s@, c),
{
    let n: usize = s.len();
    let mut a: usize = 0;
    assert(s@.skip(0) =~= s@);
    while a < n && s[a] == c
        invariant
            n == s@.len(),
            a <= n,
            skip_char(s@, c) == skip_char(s@.skip(a as int), c),
        decreases n - a,
    {
        assert(s@.skip(a as int).skip(1) =~= s@.skip(a as int + 1));
        a = a + 1;
    }
    let rest: &[char] = vstd::slice::slice_subrange(s, a, n);
    assert(rest@ =~= s@.skip(a as int));
    copy(rest)
}

/// A text without the white space in front.
pub fn trim_front(s: &[char]) -> (r: Vec<char>)
    ensures
        r@ == trim_start(s@),
{
    let n: usize = s.len();
    let mut a: usize = 0;
    assert(s@.skip(0) =~= s@);
    while a < n && is_white(s[a])
        invariant
            n == s@.len(),
            a <= n,
            trim_start(s@) == trim_start(s@.skip(a as int)),
        decreases n - a,
    {
        assert(s@.skip(a as int).skip(1) =~= s@.skip(a as int + 1));
        a = a + 1;
    }
    let rest: &[char] = vstd::slice::slice_subrange(s, a, n);
    assert(rest@ =~= s@.skip(a as int));
    copy(rest)
}

/// The pieces of `s` that the character `c` divides, from `start` on, where the characters before
/// `i` hold no `c`.
pub open spec fn split_from(s: Seq<char>, c: char, start: int, i: int) -> Seq<Seq<char>>
    decreases s.len() - i,
{
    if i < 0 || i >= s.len() {
        seq![s.skip(start)]
    } else if s[i] == c {
        seq![s.subrange(start, i)] + split_from(s, c, i + 1, i + 1)
    } else {
        split_from(s, c, start, i + 1)
    }
}

/// The pieces of `s` that the character `c` divides.
pub open spec fn pieces(s: Seq<char>, c: char) -> Seq<Seq<char>> {
    split_from(s, c, 0, 0)
}

/// The pieces of `s` that the character `c` divides.
pub fn split(s: &[char], c: char) -> (r: Vec<Vec<char>>)
    ensures
        char_views(r@) == pieces(s@, c),
        r@.len() >= 1,
{
    let n: usize = s.len();
    let mut out: Vec<Vec<char>> = Vec::new();
    let mut start: usize = 0;
    let mut i: usize = 0;
    let ghost all = pieces(s@, c);
    assert(char_views(out@) + all =~= all);
    while i < n
        invariant
            n == s@.len(),
            start <= i <= n,
            char_views(out@) + split_from(s@, c, start as int, i as int) == all,
        decreases n - i,
    {
        if s[i] == c {
            let piece: Vec<char> = copy(vstd::slice::slice_subrange(s, start, i));
            let ghost before = out@;
            out.push(piece);
            proof {
                let rest = split_from(s@, c, i + 1, i + 1);
                assert(char_views(out@) =~= char_views(before).push(piece@));
                assert(char_views(out@) + rest =~= char_views(before) + (seq![piece@] + rest));
            }
            start = i + 1;
        }
        i = i + 1;
    }
    let piece: Vec<char> = copy(vstd::slice::slice_subrange(s, start, n));
    let ghost before = out@;
    out.push(piece);
    proof {
        assert(piece@ =~= s@.skip(start as int));
        assert(char_views(out@) =~= char_views(before).push(piece@));
        assert(char_views(out@) =~= all);
    }
    out
}

/// `s` from `i` on with `w` for each `p`, found from the left.
pub open spec fn replaced_from(s: Seq<char>, p: Seq<char>, w: Seq<char>, i: int) -> Seq<char>
    decreases s.len() - i,
{
    if i < 0 || i >= s.len() || p.len() == 0 {
        Seq::empty()
    } else if p.is_prefix_of(s.skip(i)) {
        w + replaced_from(s, p, w, i + p.len())
    } else {
        seq![s[i]] + replaced_from(s, p, w, i + 1)
    }
}

/// `s` with `w` for each `p`, found from the left.
pub open spec fn replaced(s: Seq<char>, p: Seq<char>, w: Seq<char>) -> Seq<char> {
    replaced_from(s, p, w, 0)
}

/// `s` with `w` for each `p`.
pub fn replace(s: &[char], p: &str, w: &[char]) -> (r: Vec<char>)
    requires
        p@.len() > 0,
    ensures
        r@ == replaced(s@, p@, w@),
{
    let q: Vec<char> = to_chars(p);
    let n: usize = s.len();
    let m: usize = q.len();
    let mut out: Vec<char> = Vec::new();
    let mut i: usize = 0;
    let ghost all = replaced(s@, p@, w@);
    assert(out@ + all =~= all);
    while i < n
        invariant
            n == s@.len(),
            q@ == p@,
            m == p@.len(),
            m > 0,
            i <= n,
            out@ + replaced_from(s@, p@, w@, i as int) == all,
        decreases n - i,
    {
        let ghost before = out@;
        if n - i >= m && same_chars(vstd::slice::slice_subrange(s, i, i + m), q.as_slice()) {
            proof {
                assert(p@.is_prefix_of(s@.skip(i as int))) by {
                    assert forall|j: int| 0 <= j < p@.len() implies p@[j] == s@.skip(i as int)[j] by {
                        assert(s@.subrange(i as int, i + m)[j] == q@[j]);
                    }
                    assert(s@.skip(i as int).take(m as int) =~= p@);
                }
            }
            append(&mut out, w);
            assert(out@ + replaced_from(s@, p@, w@, i + m) =~= before + (w@ + replaced_from(
                s@,
                p@,
                w@,
                i + m,
            )));
            i = i + m;
        } else {
            proof {
                assert(!p@.is_prefix_of(s@.skip(i as int))) by {
                    if p@.is_prefix_of(s@.skip(i as int)) {
                        assert(n - i >= m);
                        assert(s@.subrange(i as int, i + m) =~= p@) by {
                            assert forall|j: int| 0 <= j < m implies s@.subrange(
                                i as int,
                                i + m,
                            )[j] == p@[j] by {
                                assert(s@.skip(i as int).take(m as int)[j] == p@[j]);
                            }
                        }
                    }
                }
            }
            out.push(s[i]);
            assert(out@ + replaced_from(s@, p@, w@, i + 1) =~= before + (seq![s@[i as int]]
                + replaced_from(s@, p@, w@, i + 1)));
            i = i + 1;
        }
    }
    assert(out@ =~= all);
    out
}

/// Appends characters.
pub fn append(out: &mut Vec<char>, w: &[char])
    ensures
        final(out)@ == old(out)@ + w@,
{
    let ghost before = out@;
    for i in 0..w.len()
        invariant
            out@ == before + w@.take(i as int),
    {
        out.push(w[i]);
        assert(out@ =~= before + w@.take(i as int + 1));
    }
    assert(out@ =~= before + w@);
}

/// A text without the character `c` repeated at the end.
pub open spec fn drop_char(s: Seq<char>, c: char) -> Seq<char>
    decreases s.len(),
{
    if s.len() > 0 && s.last() == c {
        drop_char(s.drop_last(), c)
    } else {
        s
    }
}

/// A text without the character `c` repeated at either end.
pub fn trim_char(s: &[char], c: char) -> (r: Vec<char>)
    ensures
        r@ == drop_char(skip_char(s@, c), c),
{
    let mut out: Vec<char> = skip_leading(s, c);
    let ghost all = out@;
    while out.len() > 0 && out[out.len() - 1] == c
        invariant
            drop_char(all, c) == drop_char(out@, c),
        decreases out@.len(),
    {
        let ghost before = out@;
        out.pop();
        assert(out@ =~= before.drop_last());
    }
    out
}

/// Whether a text ends with another.
pub fn ends_with(s: &[char], p: &str) -> (r: bool)
    ensures
        r == p@.is_suffix_of(s@),
{
    let q: Vec<char> = to_chars(p);
    let n: usize = s.len();
    let m: usize = q.len();
    if m > n {
        return false;
    }
    let tail: &[char] = vstd::slice::slice_subrange(s, n - m, n);
    same_chars(tail, q.as_slice())
}

/// The pieces of `s` that the text `p` divides, found from the left, from `start` on, where none
/// begins before `i`.
pub open spec fn parts_from(s: Seq<char>, p: Seq<char>, start: int, i: int) -> Seq<Seq<char>>
    decreases s.len() - i,
{
    if i < 0 || p.len() == 0 || i + p.len() > s.len() {
        seq![s.skip(start)]
    } else if s.subrange(i, i + p.len()) == p {
        seq![s.subrange(start, i)] + parts_from(s, p, i + p.len(), i + p.len())
    } else {
        parts_from(s, p, start, i + 1)
    }
}

/// The pieces of `s` that the text `p` divides.
pub open spec fn parts(s: Seq<char>, p: Seq<char>) -> Seq<Seq<char>> {
    parts_from(s, p, 0, 0)
}

/// The pieces of `s` that the text `p` divides.
pub fn split_text(s: &[char], p: &str) -> (r: Vec<Vec<char>>)
    requires
        p@.len() > 0,
    ensures
        char_views(r@) == parts(s@, p@),
{
    let q: Vec<char> = to_chars(p);
    let n: usize = s.len();
    let m: usize = q.len();
    let mut out: Vec<Vec<char>> = Vec::new();
    let mut start: usize = 0;
    let mut i: usize = 0;
    let ghost all = parts(s@, p@);
    assert(char_views(out@) + all =~= all);
    while n - i >= m
        invariant
            n == s@.len(),
            q@ == p@,
            m == p@.len(),
            m > 0,
            start <= i <= n,
            char_views(out@) + parts_from(s@, p@, start as int, i as int) == all,
        decreases n - i,
    {
        if same_chars(vstd::slice::slice_subrange(s, i, i + m), q.as_slice()) {
            let piece: Vec<char> = copy(vstd::slice::slice_subrange(s, start, i));
            let ghost before = out@;
            out.push(piece);
            proof {
                let rest = parts_from(s@, p@, i + m, i + m);
                assert(char_views(out@) =~= char_views(before).push(piece@));
                assert(char_views(out@) + rest =~= char_views(before) + (seq![piece@] + rest));
            }
            start = i + m;
            i = i + m;
        } else {
            i = i + 1;
        }
    }
    let piece: Vec<char> = copy(vstd::slice::slice_subrange(s, start, n));
    let ghost before = out@;
    out.push(piece);
    proof {
        assert(piece@ =~= s@.skip(start as int));
        assert(char_views(out@) =~= char_views(before).push(piece@));
        assert(char_views(out@) =~= all);
    }
    out
}

/// A space for white space.
pub open spec fn space_for(c: char) -> char {
    if white(c) {
        ' '
    } else {
        c
    }
}

/// The pieces that are not empty.
pub open spec fn nonempty(p: Seq<Seq<char>>) -> Seq<Seq<char>>
    decreases p.len(),
{
    if p.len() == 0 {
        p
    } else if p.last().len() == 0 {
        nonempty(p.drop_last())
    } else {
        nonempty(p.drop_last()).push(p.last())
    }
}

/// The words between white space.
pub open spec fn words(s: Seq<char>) -> Seq<Seq<char>> {
    nonempty(pieces(s.map_values(|c: char| space_for(c)), ' '))
}

/// The words between white space.
pub fn split_words(s: &[char]) -> (r: Vec<Vec<char>>)
    ensures
        char_views(r@) == words(s@),
{
    let mut spaced: Vec<char> = Vec::new();
    let ghost want = s@.map_values(|c: char| space_for(c));
    for i in 0..s.len()
        invariant
            want == s@.map_values(|c: char| space_for(c)),
            spaced@ == want.take(i as int),
    {
        if is_white(s[i]) {
            spaced.push(' ');
        } else {
            spaced.push(s[i]);
        }
        assert(spaced@ =~= want.take(i as int + 1));
    }
    assert(spaced@ =~= want);
    let all: Vec<Vec<char>> = split(spaced.as_slice(), ' ');
    let ghost p = pieces(want, ' ');
    let mut out: Vec<Vec<char>> = Vec::new();
    assert(char_views(out@) =~= nonempty(p.take(0)));
    for i in 0..all.len()
        invariant
            char_views(all@) == p,
            char_views(out@) == nonempty(p.take(i as int)),
    {
        let ghost part = p.take(i as int + 1);
        assert(part.drop_last() =~= p.take(i as int));
        assert(part.last() == all@[i as int]@);
        if all[i].len() > 0 {
            let ghost before = out@;
            let w: Vec<char> = copy(all[i].as_slice());
            out.push(w);
            assert(char_views(out@) =~= char_views(before).push(w@));
        }
    }
    assert(p.take(all@.len() as int) =~= p);
    out
}

/// Texts one behind the other with `sep` between them.
pub open spec fn joined(p: Seq<Seq<char>>, sep: Seq<char>) -> Seq<char>
    decreases p.len(),
{
    if p.len() == 0 {
        Seq::empty()
    } else if p.len() == 1 {
        p[0]
    } else {
        joined(p.drop_last(), sep) + sep + p.last()
    }
}

/// The texts from `from` up to `to` with `sep` between them.
pub fn join(p: &[Vec<char>], from: usize, to: usize, sep: char) -> (r: Vec<char>)
    requires
        from <= to <= p.len(),
    ensures
        r@ == joined(char_views(p@).subrange(from as int, to as int), seq![sep]),
{
    let mut out: Vec<char> = Vec::new();
    let ghost all = char_views(p@);
    assert(joined(all.subrange(from as int, from as int), seq![sep]) =~= Seq::<char>::empty());
    for i in from..to
        invariant
            from <= to <= p.len(),
            all == char_views(p@),
            out@ == joined(all.subrange(from as int, i as int), seq![sep]),
    {
        let ghost before = out@;
        let ghost part = all.subrange(from as int, i as int + 1);
        assert(part.drop_last() =~= all.subrange(from as int, i as int));
        assert(part.last() == p@[i as int]@);
        if i > from {
            out.push(sep);
        }
        append(&mut out, p[i].as_slice());
        if i > from {
            assert(out@ =~= before + seq![sep] + part.last());
        } else {
            assert(part[0] == part.last());
            assert(out@ =~= part.last());
        }
    }
    out
}

/// A text without the white space at its end.
pub fn trim_back(s: &[char]) -> (r: Vec<char>)
    ensures
        r@ == trim_end(s@),
{
    let mut out: Vec<char> = copy(s);
    while out.len() > 0 && is_white(out[out.len() - 1])
        invariant
            trim_end(s@) == trim_end(out@),
        decreases out@.len(),
    {
        let ghost before = out@;
        out.pop();
        assert(out@ =~= before.drop_last());
    }
    out
}

/// What stands before a suffix.
pub open spec fn before_suffix(s: Seq<char>, p: Seq<char>) -> Option<Seq<char>> {
    if p.is_suffix_of(s) {
        Some(s.take(s.len() - p.len()))
    } else {
        None
    }
}

/// What stands before a suffix.
pub fn strip_suffix(s: &[char], p: &str) -> (r: Option<Vec<char>>)
    ensures
        match r {
            None => before_suffix(s@, p@) is None,
            Some(v) => before_suffix(s@, p@) == Some(v@),
        },
{
    if !ends_with(s, p) {
        return None;
    }
    let m: usize = to_chars(p).len();
    let n: usize = s.len();
    let head: &[char] = vstd::slice::slice_subrange(s, 0, n - m);
    assert(head@ =~= s@.take(n - m));
    Some(copy(head))
}

/// Calls `std::str::from_utf8`; an error becomes `None`. Claimed: it succeeds on valid UTF-8 and
/// gives the characters that the bytes encode.
#[verifier::external_body]
pub(crate) fn from_utf8(bytes: &[u8]) -> (r: Option<String>)
    ensures
        match r {
            Some(s) => vstd::utf8::valid_utf8(bytes@) && s@ == vstd::utf8::decode_utf8(bytes@),
            None => !vstd::utf8::valid_utf8(bytes@),
        },
{
    std::str::from_utf8(bytes).ok().map(|s| s.to_string())
}

/// Appends `n` in decimal, with three digits.
pub fn push_decimal3(out: &mut String, n: u64)
    requires
        n < 1000,
    ensures
        final(out)@ == old(out)@ + decimal3(n as int),
{
    out.push((48 + (n / 100) as u8) as char);
    out.push((48 + (n / 10 % 10) as u8) as char);
    out.push((48 + (n % 10) as u8) as char);
    assert(out@ =~= old(out)@ + decimal3(n as int));
}

/// `n` below 1000 in decimal, with three digits.
pub open spec fn decimal3(n: int) -> Seq<char> {
    seq![digit(n / 100), digit(n / 10 % 10), digit(n % 10)]
}

/// A text behind every repeat of `p` in front.
pub open spec fn skip_text(s: Seq<char>, p: Seq<char>) -> Seq<char>
    decreases s.len(),
{
    if p.len() > 0 && p.is_prefix_of(s) {
        skip_text(s.skip(p.len() as int), p)
    } else {
        s
    }
}

/// A text behind every repeat of `p` in front.
pub fn skip_repeated(s: Vec<char>, p: &str) -> (r: Vec<char>)
    requires
        p@.len() > 0,
    ensures
        r@ == skip_text(s@, p@),
{
    let mut cur: Vec<char> = s;
    loop
        invariant
            p@.len() > 0,
            skip_text(s@, p@) == skip_text(cur@, p@),
        decreases cur@.len(),
    {
        match strip_prefix(cur.as_slice(), p) {
            None => return cur,
            Some(rest) => {
                cur = rest;
            },
        }
    }
}

/// Whether a text comes before another in the order of their characters.
pub open spec fn less(a: Seq<char>, b: Seq<char>) -> bool
    decreases a.len(),
{
    if b.len() == 0 {
        false
    } else if a.len() == 0 {
        true
    } else if a[0] != b[0] {
        a[0] < b[0]
    } else {
        less(a.skip(1), b.skip(1))
    }
}

/// Whether a text comes before another in the order of their characters.
pub fn is_less(a: &str, b: &str) -> (r: bool)
    ensures
        r == less(a@, b@),
{
    let x: Vec<char> = to_chars(a);
    let y: Vec<char> = to_chars(b);
    let n: usize = x.len();
    let m: usize = y.len();
    let mut i: usize = 0;
    assert(a@.skip(0) =~= a@ && b@.skip(0) =~= b@);
    while i < n && i < m
        invariant
            n == x@.len(),
            m == y@.len(),
            i <= n,
            i <= m,
            x@ == a@,
            y@ == b@,
            less(a@, b@) == less(a@.skip(i as int), b@.skip(i as int)),
        decreases n - i,
    {
        assert(a@.skip(i as int).skip(1) =~= a@.skip(i as int + 1));
        assert(b@.skip(i as int).skip(1) =~= b@.skip(i as int + 1));
        if x[i] != y[i] {
            return x[i] < y[i];
        }
        i = i + 1;
    }
    i < m
}

/// No text comes before itself, and of two different ones the one or the other comes first.
pub proof fn lemma_less_is_total(a: Seq<char>, b: Seq<char>)
    ensures
        !less(a, a),
        a != b ==> less(a, b) != less(b, a),
    decreases a.len(),
{
    if a.len() > 0 {
        lemma_less_is_total(a.skip(1), a.skip(1));
    }
    if a.len() > 0 && b.len() > 0 && a[0] == b[0] {
        lemma_less_is_total(a.skip(1), b.skip(1));
        if a.skip(1) == b.skip(1) {
            assert(a =~= seq![a[0]] + a.skip(1));
            assert(b =~= seq![b[0]] + b.skip(1));
        }
    } else if a.len() == 0 && b.len() == 0 {
        assert(a =~= b);
    }
}

/// What comes before a second comes before all that the second comes before.
pub proof fn lemma_less_is_transitive(a: Seq<char>, b: Seq<char>, c: Seq<char>)
    requires
        less(a, b),
        less(b, c),
    ensures
        less(a, c),
    decreases a.len(),
{
    if a.len() > 0 && a[0] == b[0] && b[0] == c[0] {
        lemma_less_is_transitive(a.skip(1), b.skip(1), c.skip(1));
    }
}

proof fn lemma_replaced_shift(s: Seq<char>, p: Seq<char>, w: Seq<char>, k: int, i: int)
    requires
        0 <= k <= i,
        k <= s.len(),
    ensures
        replaced_from(s, p, w, i) == replaced_from(s.skip(k), p, w, i - k),
    decreases s.len() - i,
{
    if i < s.len() && p.len() > 0 {
        assert(s.skip(k).skip(i - k) =~= s.skip(i));
        assert(s.skip(k)[i - k] == s[i]);
        if p.is_prefix_of(s.skip(i)) {
            lemma_replaced_shift(s, p, w, k, i + p.len());
        } else {
            lemma_replaced_shift(s, p, w, k, i + 1);
        }
    }
}

proof fn lemma_replaced_plain(a: Seq<char>, s: Seq<char>, p: Seq<char>, w: Seq<char>)
    requires
        p.len() > 0,
        !a.contains(p[0]),
    ensures
        replaced(a + s, p, w) == a + replaced(s, p, w),
    decreases a.len(),
{
    let t = a + s;
    if a.len() > 0 {
        let r = a.skip(1);
        assert(!r.contains(p[0])) by {
            if r.contains(p[0]) {
                let j = choose|j: int| 0 <= j < r.len() && r[j] == p[0];
                assert(a[j + 1] == p[0]);
            }
        }
        lemma_replaced_plain(r, s, p, w);
        assert(!p.is_prefix_of(t.skip(0))) by {
            if p.is_prefix_of(t.skip(0)) {
                assert(t.skip(0).subrange(0, p.len() as int)[0] == t[0]);
                assert(a[0] == p[0]);
            }
        }
        lemma_replaced_shift(t, p, w, 1, 1);
        assert(t.skip(1) =~= r + s);
        assert(seq![t[0]] + (r + replaced(s, p, w)) =~= a + replaced(s, p, w));
    } else {
        assert(t =~= s);
        assert(a + replaced(s, p, w) =~= replaced(s, p, w));
    }
}

proof fn lemma_replaced_one(s: Seq<char>, p: Seq<char>, w: Seq<char>)
    requires
        p.len() > 0,
    ensures
        replaced(p + s, p, w) == w + replaced(s, p, w),
{
    let t = p + s;
    assert(t.skip(0) =~= t);
    assert(t.subrange(0, p.len() as int) =~= p);
    lemma_replaced_shift(t, p, w, p.len() as int, p.len() as int);
    assert(t.skip(p.len() as int) =~= s);
}

/// Replacing puts one text in the place of another wherever that one stands, and leaves the rest.
pub proof fn law_replacing_joins_anew(parts: Seq<Seq<char>>, p: Seq<char>, w: Seq<char>)
    requires
        p.len() > 0,
        parts.len() > 0,
        forall|i: int| 0 <= i < parts.len() ==> !(#[trigger] parts[i]).contains(p[0]),
    ensures
        replaced(joined(parts, p), p, w) == joined(parts, w),
    decreases parts.len(),
{
    let first = parts[0];
    let none = Seq::<char>::empty();
    assert(replaced(none, p, w) =~= none);
    reveal_with_fuel(joined, 2);
    if parts.len() == 1 {
        lemma_replaced_plain(first, none, p, w);
        assert(first + none =~= first);
    } else {
        let rest = parts.skip(1);
        assert forall|i: int| 0 <= i < rest.len() implies !(#[trigger] rest[i]).contains(p[0]) by {
            assert(rest[i] == parts[i + 1]);
        }
        law_replacing_joins_anew(rest, p, w);
        lemma_joined_head(parts, p);
        lemma_joined_head(parts, w);
        let tail = joined(rest, p);
        lemma_replaced_plain(first, p + tail, p, w);
        lemma_replaced_one(tail, p, w);
        assert(first + p + tail =~= first + (p + tail));
        assert(first + (w + joined(rest, w)) =~= first + w + joined(rest, w));
    }
}

/// A single mark in a text is replaced.
pub proof fn lemma_mark_is_replaced(a: Seq<char>, p: Seq<char>, b: Seq<char>, w: Seq<char>)
    requires
        p.len() > 0,
        !a.contains(p[0]),
        !b.contains(p[0]),
    ensures
        replaced(a + p + b, p, w) == a + w + b,
{
    let none = Seq::<char>::empty();
    assert(replaced(none, p, w) =~= none);
    lemma_replaced_plain(b, none, p, w);
    assert(b + none =~= b);
    lemma_replaced_one(b, p, w);
    lemma_replaced_plain(a, p + b, p, w);
    assert(a + p + b =~= a + (p + b));
    assert(a + (w + b) =~= a + w + b);
}

/// A text without the first character of a mark stays as it is.
pub proof fn lemma_nothing_is_replaced(s: Seq<char>, p: Seq<char>, w: Seq<char>)
    requires
        p.len() > 0,
        !s.contains(p[0]),
    ensures
        replaced(s, p, w) == s,
{
    let none = Seq::<char>::empty();
    assert(replaced(none, p, w) =~= none);
    lemma_replaced_plain(s, none, p, w);
    assert(s + none =~= s);
}

/// Hexadecimal digits count from 0 to 15, in either case, and the first of a pair weighs 16 times
/// the second.
pub proof fn law_hex_digits_count(d: int, s: Seq<char>, i: int)
    requires
        0 <= d < 16,
    ensures
        hex_value("0123456789abcdef"@[d]) == Some(d),
        hex_value("0123456789ABCDEF"@[d]) == Some(d),
        hex_digit(d) == "0123456789abcdef"@[d],
        is_hex(s) && 0 <= i < s.len() / 2 ==> hex_bytes(s)[i] as int == 16 * hex_value(s[2 * i])->0
            + hex_value(s[2 * i + 1])->0,
        hex_bytes(s).len() == s.len() / 2,
{
    reveal_strlit("0123456789abcdef");
    reveal_strlit("0123456789ABCDEF");
    if is_hex(s) && 0 <= i < s.len() / 2 {
        assert(hex_value(s[2 * i]) is Some);
        assert(hex_value(s[2 * i + 1]) is Some);
    }
}

proof fn lemma_split_shift(s: Seq<char>, c: char, k: int, start: int, i: int)
    requires
        0 <= k <= start <= i,
        start <= s.len(),
    ensures
        split_from(s, c, start, i) == split_from(s.skip(k), c, start - k, i - k),
    decreases s.len() - i,
{
    let r = s.skip(k);
    if i < s.len() {
        assert(r[i - k] == s[i]);
        if s[i] == c {
            lemma_split_shift(s, c, k, i + 1, i + 1);
            assert(r.subrange(start - k, i - k) =~= s.subrange(start, i));
        } else {
            lemma_split_shift(s, c, k, start, i + 1);
        }
    } else {
        assert(r.skip(start - k) =~= s.skip(start));
    }
}

proof fn lemma_split_run(s: Seq<char>, c: char, start: int, i: int, j: int)
    requires
        0 <= i <= j <= s.len(),
        forall|k: int| i <= k < j ==> #[trigger] s[k] != c,
    ensures
        split_from(s, c, start, i) == split_from(s, c, start, j),
    decreases j - i,
{
    if i < j {
        lemma_split_run(s, c, start, i + 1, j);
    }
}

/// The first piece of a text ends at the first divider.
pub proof fn lemma_first_of_pieces(a: Seq<char>, c: char, b: Seq<char>)
    requires
        !a.contains(c),
    ensures
        pieces(a + seq![c] + b, c) == seq![a] + pieces(b, c),
        pieces(a, c) == seq![a],
{
    let s = a + seq![c] + b;
    let n = a.len() as int;
    assert forall|k: int| 0 <= k < n implies #[trigger] s[k] != c by {
        assert(s[k] == a[k]);
    }
    lemma_split_run(s, c, 0, 0, n);
    assert(s[n] == c);
    assert(s.subrange(0, n) =~= a);
    lemma_split_shift(s, c, n + 1, n + 1, n + 1);
    assert(s.skip(n + 1) =~= b);
    lemma_split_run(a, c, 0, 0, n);
    assert(a.skip(0) =~= a);
}

/// Pieces that are joined by a divider which none of them holds are told apart again.
pub proof fn law_pieces_are_read_back(parts: Seq<Seq<char>>, c: char)
    requires
        parts.len() > 0,
        forall|i: int| 0 <= i < parts.len() ==> !(#[trigger] parts[i]).contains(c),
    ensures
        pieces(joined(parts, seq![c]), c) == parts,
    decreases parts.len(),
{
    reveal_with_fuel(joined, 2);
    if parts.len() == 1 {
        lemma_first_of_pieces(parts[0], c, Seq::empty());
        assert(seq![parts[0]] =~= parts);
    } else {
        let rest = parts.skip(1);
        assert forall|i: int| 0 <= i < rest.len() implies !(#[trigger] rest[i]).contains(c) by {
            assert(rest[i] == parts[i + 1]);
        }
        law_pieces_are_read_back(rest, c);
        lemma_joined_head(parts, seq![c]);
        lemma_first_of_pieces(parts[0], c, joined(rest, seq![c]));
        assert(seq![parts[0]] + rest =~= parts);
    }
}

} // verus!
