//! Durations in whole nanoseconds.

use vstd::prelude::*;

use crate::text;

verus! {

/// Nanoseconds in a second.
pub const SECOND: u64 = 1_000_000_000;

/// The greatest number of nanoseconds that a text can state: what is beyond counts as this.
pub const GREATEST: u128 = 1_000_000_000_000_000_000_000_000_000_000;

/// Whether characters are decimal digits; there may be none.
pub open spec fn only_digits(s: Seq<char>) -> bool {
    s.len() == 0 || text::is_digits(s)
}

/// A power of ten.
pub open spec fn pow10(n: nat) -> int
    decreases n,
{
    if n == 0 {
        1
    } else {
        10 * pow10((n - 1) as nat)
    }
}

/// The number that digits state with `k` zeros behind them, or without their last `-k` digits.
pub open spec fn shifted(d: Seq<char>, k: int) -> int {
    if k >= 0 {
        text::digits_value(d) * pow10(k as nat)
    } else if d.len() + k <= 0 {
        0
    } else {
        text::digits_value(d.take(d.len() + k))
    }
}

/// A text without one sign in front, and whether that is a minus sign.
pub open spec fn signed_part(s: Seq<char>) -> (bool, Seq<char>) {
    if s.len() > 0 && (s[0] == '+' || s[0] == '-') {
        (s[0] == '-', s.skip(1))
    } else {
        (false, s)
    }
}

/// Where the exponent of a number starts: at the first `e` from `i` on, in either case.
pub open spec fn exponent_at(s: Seq<char>, i: int) -> int
    decreases s.len() - i,
{
    if i < 0 || i >= s.len() {
        s.len() as int
    } else if s[i] == 'e' || s[i] == 'E' {
        i
    } else {
        exponent_at(s, i + 1)
    }
}

/// The exponent of a number, from its letter on; 0 where there is none. One that does not fit in
/// 64 bits counts as the greatest that does.
pub open spec fn exponent_of(s: Seq<char>) -> Option<int> {
    if s.len() == 0 {
        Some(0)
    } else {
        let (negative, d) = signed_part(s.skip(1));
        if !text::is_digits(d) {
            None
        } else {
            let v = if text::digits_value(d) > u64::MAX {
                u64::MAX as int
            } else {
                text::digits_value(d)
            };
            Some(if negative {
                -v
            } else {
                v
            })
        }
    }
}

/// The digits of a decimal number before and behind its point.
pub open spec fn decimal_parts(d: Seq<char>) -> (Seq<char>, Seq<char>) {
    match text::index_from(d, '.', 0) {
        Some(i) => (d.take(i), d.skip(i + 1)),
        None => (d, Seq::empty()),
    }
}

/// Whether a text names the number that is beyond all others, in any case.
pub open spec fn is_endless(s: Seq<char>) -> bool {
    text::ascii_lowercase(s) == "inf"@ || text::ascii_lowercase(s) == "infinity"@
}

/// The nanoseconds that a decimal number of seconds states, towards zero: digits, with a point
/// among them where there is a fraction, a sign in front and an exponent behind them where there
/// is one. A number without end counts as the greatest.
pub open spec fn decimal_ns(s: Seq<char>) -> Option<int> {
    let (negative, u) = signed_part(s);
    let e = exponent_at(u, 0);
    let (a, f) = decimal_parts(u.take(e));
    if is_endless(u) {
        Some(
            if negative {
                -(GREATEST as int)
            } else {
                GREATEST as int
            },
        )
    } else {
        match exponent_of(u.skip(e)) {
            None => None,
            Some(x) => if only_digits(a) && only_digits(f) && a.len() + f.len() > 0 {
                let v = shifted(a + f, x + 9 - f.len());
                let m = if v > GREATEST {
                    GREATEST as int
                } else {
                    v
                };
                Some(
                    if negative {
                        -m
                    } else {
                        m
                    },
                )
            } else {
                None
            },
        }
    }
}

fn all_digits(s: &[char]) -> (r: bool)
    ensures
        r == only_digits(s@),
{
    for i in 0..s.len()
        invariant
            forall|j: int| 0 <= j < i ==> '0' <= #[trigger] s@[j] && s@[j] <= '9',
    {
        if !('0' <= s[i] && s[i] <= '9') {
            assert(!('0' <= s@[i as int] && s@[i as int] <= '9'));
            return false;
        }
    }
    true
}

proof fn lemma_pow10_grows(n: nat, m: nat)
    requires
        n <= m,
    ensures
        1 <= pow10(n) <= pow10(m),
    decreases m,
{
    if n < m {
        lemma_pow10_grows(n, (m - 1) as nat);
    } else if n > 0 {
        lemma_pow10_grows((n - 1) as nat, (m - 1) as nat);
    }
}

/// The number that the first `n` digits state.
fn value_of(d: &[char], n: usize) -> (r: u128)
    requires
        only_digits(d@),
        n <= d@.len(),
    ensures
        r == if text::digits_value(d@.take(n as int)) > GREATEST {
            GREATEST as int
        } else {
            text::digits_value(d@.take(n as int))
        },
{
    let mut v: u128 = 0;
    for i in 0..n
        invariant
            only_digits(d@),
            n <= d@.len(),
            text::digits_value(d@.take(i as int)) >= 0,
            v == if text::digits_value(d@.take(i as int)) > GREATEST {
                GREATEST as int
            } else {
                text::digits_value(d@.take(i as int))
            },
    {
        let ghost part = d@.take(i as int + 1);
        assert(part.drop_last() =~= d@.take(i as int));
        assert(part.last() == d@[i as int]);
        assert('0' <= d@[i as int] && d@[i as int] <= '9');
        let next: u128 = v * 10 + (text::code(d[i]) - 48) as u128;
        v = if next > GREATEST {
            GREATEST
        } else {
            next
        };
    }
    v
}

/// Digits with `k` zeros behind them, or without their last `k`.
fn shift(d: &[char], down: bool, k: u128) -> (r: u128)
    requires
        only_digits(d@),
    ensures
        ({
            let v = shifted(
                d@,
                if down {
                    -(k as int)
                } else {
                    k as int
                },
            );
            r == if v > GREATEST {
                GREATEST as int
            } else {
                v
            }
        }),
        r <= GREATEST,
{
    let n: usize = d.len();
    assert(d@.take(n as int) =~= d@);
    if down && k > 0 {
        if k >= n as u128 {
            return 0;
        }
        return value_of(d, n - k as usize);
    }
    if k == 0 {
        assert(pow10(0) == 1);
        assert(text::digits_value(d@) * 1 == text::digits_value(d@));
        return value_of(d, n);
    }
    let ghost v0 = text::digits_value(d@);
    let first: u128 = value_of(d, n);
    let mut v: u128 = first;
    let mut i: u128 = 0;
    proof {
        assert(pow10(0) == 1);
        assert(v0 * 1 == v0);
        text::lemma_digits_value_nonneg(d@);
    }
    while i < k && v > 0 && v < GREATEST
        invariant
            i <= k,
            0 <= v0,
            v <= GREATEST,
            v == if v0 * pow10(i as nat) > GREATEST {
                GREATEST as int
            } else {
                v0 * pow10(i as nat)
            },
        decreases k - i,
    {
        proof {
            let p = pow10(i as nat);
            assert(pow10((i + 1) as nat) == 10 * p);
            assert(v0 * (10 * p) == 10 * (v0 * p)) by (nonlinear_arith);
        }
        v = if v * 10 > GREATEST {
            GREATEST
        } else {
            v * 10
        };
        i = i + 1;
    }
    proof {
        lemma_pow10_grows(i as nat, k as nat);
        let p = pow10(i as nat);
        let q = pow10(k as nat);
        assert(v0 * p <= v0 * q) by (nonlinear_arith)
            requires
                0 <= v0,
                p <= q,
        ;
        if i < k && v == 0 {
            assert(v0 == 0) by (nonlinear_arith)
                requires
                    v0 * p == 0,
                    p >= 1,
            ;
            assert(v0 * q == 0);
        }
    }
    v
}

/// The sign of a text and what stands behind it.
fn split_sign(s: &[char]) -> (r: (bool, &[char]))
    ensures
        r.0 == signed_part(s@).0,
        r.1@ == signed_part(s@).1,
{
    let n: usize = s.len();
    if n > 0 && (s[0] == '+' || s[0] == '-') {
        let rest: &[char] = vstd::slice::slice_subrange(s, 1, n);
        assert(rest@ =~= s@.skip(1));
        (s[0] == '-', rest)
    } else {
        (false, s)
    }
}

fn find_exponent(s: &[char]) -> (r: usize)
    ensures
        r == exponent_at(s@, 0),
        r <= s@.len(),
{
    let n: usize = s.len();
    let mut i: usize = 0;
    while i < n && s[i] != 'e' && s[i] != 'E'
        invariant
            n == s@.len(),
            i <= n,
            exponent_at(s@, 0) == exponent_at(s@, i as int),
        decreases n - i,
    {
        i = i + 1;
    }
    i
}

fn parse_exponent(s: &[char]) -> (r: Option<(bool, u64)>)
    ensures
        match r {
            None => exponent_of(s@) is None,
            Some((negative, v)) => exponent_of(s@) == Some(
                if negative {
                    -(v as int)
                } else {
                    v as int
                },
            ),
        },
{
    let n: usize = s.len();
    if n == 0 {
        return Some((false, 0));
    }
    let tail: &[char] = vstd::slice::slice_subrange(s, 1, n);
    assert(tail@ =~= s@.skip(1));
    let (negative, d) = split_sign(tail);
    if d.len() == 0 || !all_digits(d) {
        return None;
    }
    let m: usize = d.len();
    assert(d@.take(m as int) =~= d@);
    let v: u128 = value_of(d, m);
    let e: u64 = if v > u64::MAX as u128 {
        u64::MAX
    } else {
        v as u64
    };
    proof {
        text::lemma_digits_value_nonneg(d@);
    }
    Some((negative, e))
}

/// The nanoseconds that a decimal number of seconds states.
pub fn parse_decimal_ns(s: &[char]) -> (r: Option<i128>)
    ensures
        match r {
            None => decimal_ns(s@) is None,
            Some(v) => decimal_ns(s@) == Some(v as int) && -GREATEST <= v <= GREATEST,
        },
{
    let (negative, u) = split_sign(s);
    let lower: Vec<char> = text::to_ascii_lower(u);
    let name: String = text::from_chars(lower.as_slice());
    if text::same(name.as_str(), "inf") || text::same(name.as_str(), "infinity") {
        return Some(
            if negative {
                -(GREATEST as i128)
            } else {
                GREATEST as i128
            },
        );
    }
    let e: usize = find_exponent(u);
    let n: usize = u.len();
    let d: &[char] = vstd::slice::slice_subrange(u, 0, e);
    let tail: &[char] = vstd::slice::slice_subrange(u, e, n);
    assert(d@ =~= u@.take(e as int));
    assert(tail@ =~= u@.skip(e as int));
    let (down, x): (bool, u64) = match parse_exponent(tail) {
        None => return None,
        Some(x) => x,
    };
    let mut digits: Vec<char>;
    let part: Vec<char>;
    match text::index_of(d, '.', 0) {
        Some(i) => {
            digits = text::copy(vstd::slice::slice_subrange(d, 0, i));
            part = text::copy(vstd::slice::slice_subrange(d, i + 1, d.len()));
            assert(digits@ =~= d@.take(i as int));
            assert(part@ =~= d@.skip(i as int + 1));
        },
        None => {
            digits = text::copy(d);
            part = Vec::new();
            assert(part@ =~= Seq::<char>::empty());
        },
    }
    let ghost a = decimal_parts(d@).0;
    let ghost f = decimal_parts(d@).1;
    assert(digits@ == a && part@ == f);
    if !all_digits(digits.as_slice()) || !all_digits(part.as_slice()) {
        return None;
    }
    if digits.len() == 0 && part.len() == 0 {
        return None;
    }
    text::append(&mut digits, part.as_slice());
    assert(only_digits(a + f)) by {
        assert forall|i: int| 0 <= i < (a + f).len() implies '0' <= #[trigger] (a + f)[i] && (a
            + f)[i] <= '9' by {
            if i < a.len() {
                assert((a + f)[i] == a[i]);
            } else {
                assert((a + f)[i] == f[i - a.len()]);
            }
        }
    }
    let k: i128 = (if down {
        -(x as i128)
    } else {
        x as i128
    }) + 9 - part.len() as i128;
    let v: u128 = if k < 0 {
        shift(digits.as_slice(), true, (-k) as u128)
    } else {
        shift(digits.as_slice(), false, k as u128)
    };
    if negative {
        Some(-(v as i128))
    } else {
        Some(v as i128)
    }
}

/// The longest duration. What is beyond counts as this, and so does one without end.
pub const LONGEST: i64 = 0x7fff_ffff_ffff_ffff;

/// The nanoseconds as a duration of 64 bits, or the nearest that there is.
pub open spec fn as_duration(ns: int) -> i64 {
    if ns < i64::MIN {
        i64::MIN
    } else if ns > LONGEST {
        LONGEST
    } else {
        ns as i64
    }
}

/// The nanoseconds as a duration of 64 bits, or the nearest that there is.
pub fn to_duration(ns: i128) -> (r: i64)
    ensures
        r == as_duration(ns as int),
{
    if ns < i64::MIN as i128 {
        i64::MIN
    } else if ns > LONGEST as i128 {
        LONGEST
    } else {
        ns as i64
    }
}

/// The sum of two durations.
pub open spec fn duration_sum(a: i64, b: i64) -> i64 {
    as_duration(a + b)
}

/// The sum of two durations.
pub fn add_durations(a: i64, b: i64) -> (r: i64)
    ensures
        r == duration_sum(a, b),
{
    to_duration(a as i128 + b as i128)
}

/// A duration, or 0 where it is below that.
pub open spec fn not_below_zero(ns: i64) -> i64 {
    if ns < 0 {
        0
    } else {
        ns
    }
}

/// A duration, or 0 where it is below that.
pub fn at_least_zero(ns: i64) -> (r: i64)
    ensures
        r == not_below_zero(ns),
{
    if ns < 0 {
        0
    } else {
        ns
    }
}

/// A sum of 64 bits.
pub open spec fn sum64(a: u64, b: u64) -> u64 {
    ((a + b) % 0x1_0000_0000_0000_0000) as u64
}

/// A sum of 64 bits.
pub fn add64(a: u64, b: u64) -> (r: u64)
    ensures
        r == sum64(a, b),
{
    let s: u128 = a as u128 + b as u128;
    if s > u64::MAX as u128 {
        (s - 0x1_0000_0000_0000_0000) as u64
    } else {
        s as u64
    }
}

/// A duration as ticks of which `scale` make a second. A scale of 0 counts as 1.
#[derive(Debug, Clone, Copy, PartialEq, Eq, Structural)]
pub struct Span {
    pub ticks: u64,
    pub scale: u32,
}

impl Span {
    /// Ticks in a second.
    pub open spec fn rate(self) -> int {
        if self.scale == 0 {
            1
        } else {
            self.scale as int
        }
    }

    /// Ticks in a second.
    pub fn ticks_per_second(&self) -> (r: u64)
        ensures
            r == self.rate(),
            1 <= r <= u32::MAX,
    {
        if self.scale == 0 {
            1
        } else {
            self.scale as u64
        }
    }

    /// The duration in whole nanoseconds, within 64 bits.
    pub open spec fn ns(self) -> i64 {
        as_duration(self.ticks * SECOND / self.rate())
    }

    /// The duration in whole nanoseconds.
    pub fn to_ns(&self) -> (r: i64)
        ensures
            r == self.ns(),
            r >= 0,
    {
        let n: u128 = self.ticks as u128 * SECOND as u128 / self.ticks_per_second() as u128;
        if n > LONGEST as u128 {
            LONGEST
        } else {
            n as i64
        }
    }

    /// A duration in nanoseconds.
    pub fn from_ns(ns: u64) -> (r: Span)
        ensures
            r == (Span { ticks: ns, scale: SECOND as u32 }),
    {
        Span { ticks: ns, scale: SECOND as u32 }
    }
}

proof fn lemma_digits_join(a: Seq<char>, f: Seq<char>)
    ensures
        text::digits_value(a + f) == text::digits_value(a) * pow10(f.len()) + text::digits_value(f),
    decreases f.len(),
{
    if f.len() > 0 {
        let d = f.drop_last();
        lemma_digits_join(a, d);
        assert((a + f).drop_last() =~= a + d);
        assert((a + f).last() == f.last());
        let x = text::digits_value(a);
        let p = pow10(d.len());
        assert(pow10(f.len()) == 10 * p);
        assert(x * (10 * p) == 10 * (x * p)) by (nonlinear_arith);
    } else {
        assert(a + f =~= a);
        assert(text::digits_value(a) * 1 == text::digits_value(a));
    }
}

proof fn lemma_no_exponent(s: Seq<char>, i: int)
    requires
        0 <= i,
        forall|j: int| 0 <= j < s.len() ==> #[trigger] s[j] != 'e' && s[j] != 'E',
    ensures
        exponent_at(s, i) == s.len(),
    decreases s.len() - i,
{
    if i < s.len() {
        lemma_no_exponent(s, i + 1);
    }
}

proof fn lemma_not_endless(s: Seq<char>)
    requires
        s.len() > 0,
        '0' <= s[0] <= '9' || s[0] == '.',
    ensures
        !is_endless(s),
{
    reveal_strlit("inf");
    reveal_strlit("infinity");
    let l = text::ascii_lowercase(s);
    assert(l[0] == text::ascii_lower(s[0]));
}

/// The digits of a decimal number count by their places: those before the point as seconds, those
/// behind it as parts of a second, and a minus sign turns the whole.
pub proof fn law_decimal_counts_by_places(a: Seq<char>, f: Seq<char>)
    requires
        text::is_digits(a),
        text::is_digits(f),
        f.len() <= 9,
        (text::digits_value(a) * pow10(f.len()) + text::digits_value(f)) * pow10(
            (9 - f.len()) as nat,
        ) <= GREATEST,
    ensures
        ({
            let ns = (text::digits_value(a) * pow10(f.len()) + text::digits_value(f)) * pow10(
                (9 - f.len()) as nat,
            );
            &&& decimal_ns(a + seq!['.'] + f) == Some(ns)
            &&& decimal_ns(seq!['-'] + a + seq!['.'] + f) == Some(-ns)
        }),
{
    let s = a + seq!['.'] + f;
    let n = a.len() as int;
    assert forall|j: int| 0 <= j < s.len() implies #[trigger] s[j] != 'e' && s[j] != 'E' by {
        if j < n {
            assert(s[j] == a[j]);
        } else if j > n {
            assert(s[j] == f[j - n - 1]);
        }
    }
    lemma_no_exponent(s, 0);
    assert(s[0] == a[0]);
    lemma_not_endless(s);
    assert forall|j: int| 0 <= j < n implies #[trigger] s[j] != '.' by {
        assert(s[j] == a[j]);
    }
    assert(s[n] == '.');
    text::lemma_index_is(s, '.', 0, n);
    assert(s.take(s.len() as int) =~= s);
    assert(s.skip(s.len() as int) =~= Seq::<char>::empty());
    assert(s.take(n) =~= a);
    assert(s.skip(n + 1) =~= f);
    lemma_digits_join(a, f);
    let m = seq!['-'] + a + seq!['.'] + f;
    assert(m.skip(1) =~= s);
    assert(signed_part(m) == (true, s));
    assert(signed_part(s) == (false, s));
}

/// Digits alone are whole seconds.
pub proof fn law_digits_are_seconds(s: Seq<char>)
    requires
        text::is_digits(s),
        text::digits_value(s) * 1_000_000_000 <= GREATEST,
    ensures
        decimal_ns(s) == Some(text::digits_value(s) * 1_000_000_000),
{
    assert forall|j: int| 0 <= j < s.len() implies #[trigger] s[j] != 'e' && s[j] != 'E' && s[j]
        != '.' by {
        assert('0' <= s[j] && s[j] <= '9');
    }
    lemma_no_exponent(s, 0);
    lemma_not_endless(s);
    text::lemma_index_shape(s, '.', 0);
    assert(s.take(s.len() as int) =~= s);
    assert(s.skip(s.len() as int) =~= Seq::<char>::empty());
    assert(s + Seq::<char>::empty() =~= s);
    assert(signed_part(s) == (false, s));
    lemma_pow9();
}

/// A whole number of seconds is that many times a thousand million nanoseconds.
pub proof fn law_whole_seconds_are_read_back(n: int)
    requires
        0 <= n,
        n * 1_000_000_000 <= GREATEST,
    ensures
        decimal_ns(text::decimal(n)) == Some(n * 1_000_000_000),
{
    text::law_decimal_round_trip(n);
    law_digits_are_seconds(text::decimal(n));
}

pub proof fn lemma_pow9()
    ensures
        pow10(0) == 1,
        pow10(3) == 1000,
        pow10(6) == 1_000_000,
        pow10(9) == 1_000_000_000,
{
    reveal_with_fuel(pow10, 10);
}

/// Three digits behind the point are milliseconds.
pub proof fn law_milliseconds_are_read_back(seconds: int, ms: int)
    requires
        0 <= seconds,
        0 <= ms < 1000,
        seconds * 1_000_000_000 + ms * 1_000_000 <= GREATEST,
    ensures
        decimal_ns(text::decimal(seconds) + seq!['.'] + text::decimal3(ms)) == Some(
            seconds * 1_000_000_000 + ms * 1_000_000,
        ),
        decimal_ns(seq!['-'] + text::decimal(seconds) + seq!['.'] + text::decimal3(ms)) == Some(
            -(seconds * 1_000_000_000 + ms * 1_000_000),
        ),
{
    let a = text::decimal(seconds);
    let f = text::decimal3(ms);
    text::law_decimal_round_trip(seconds);
    lemma_three_digits(ms);
    lemma_pow9();
    let (x, y) = (text::digits_value(a), text::digits_value(f));
    assert((x * 1000 + y) * 1_000_000 == x * 1_000_000_000 + y * 1_000_000);
    law_decimal_counts_by_places(a, f);
}

pub proof fn lemma_three_digits(ms: int)
    requires
        0 <= ms < 1000,
    ensures
        text::is_digits(text::decimal3(ms)),
        text::digits_value(text::decimal3(ms)) == ms,
        text::decimal3(ms).len() == 3,
{
    let f = text::decimal3(ms);
    let a = f.drop_last();
    let b = a.drop_last();
    let c = b.drop_last();
    assert(c =~= Seq::<char>::empty());
    assert(f.last() as int == 48 + ms % 10);
    assert(a.last() as int == 48 + ms / 10 % 10);
    assert(b.last() as int == 48 + ms / 100);
    reveal_with_fuel(text::digits_value, 4);
}

} // verus!
