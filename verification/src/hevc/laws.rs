//! What is read of a sequence parameter set: fields that were written one behind the other.

use vstd::arithmetic::power2::{lemma_pow2_pos, lemma_pow2_strictly_increases, lemma_pow2_unfold, pow2};
use vstd::prelude::*;

use crate::hevc::sps;
use crate::ts::VideoRange;

verus! {

/// The bytes with emulation prevention, from `i` on: a 3 stands before each byte up to 3 behind
/// two zeros. `zeros` bytes of 0 stand before `i`.
pub open spec fn escaped(d: Seq<u8>, i: int, zeros: int) -> Seq<u8>
    decreases d.len() - i,
{
    if i < 0 || i >= d.len() {
        Seq::empty()
    } else {
        let z: int = if zeros >= 2 && d[i] <= 3 {
            0
        } else {
            zeros
        };
        let rest = escaped(
            d,
            i + 1,
            if d[i] == 0 {
                z + 1
            } else {
                0
            },
        );
        if zeros >= 2 && d[i] <= 3 {
            seq![3u8, d[i]] + rest
        } else {
            seq![d[i]] + rest
        }
    }
}

proof fn lemma_unescaped_tail(a: Seq<u8>, b: Seq<u8>, i: int, j: int, zeros: int)
    requires
        0 <= i <= a.len(),
        0 <= j <= b.len(),
        a.skip(i) == b.skip(j),
    ensures
        sps::unescaped(a, i, zeros) == sps::unescaped(b, j, zeros),
    decreases a.len() - i,
{
    let (x, y) = (a.skip(i), b.skip(j));
    assert(x.len() == a.len() - i && y.len() == b.len() - j);
    if i < a.len() {
        assert(a[i] == x[0] && b[j] == y[0]);
        if i + 1 < a.len() {
            assert(a[i + 1] == x[1] && b[j + 1] == y[1]);
        }
        assert(a.skip(i + 1) =~= x.skip(1));
        assert(b.skip(j + 1) =~= y.skip(1));
        lemma_unescaped_tail(a, b, i + 1, j + 1, 0);
        lemma_unescaped_tail(a, b, i + 1, j + 1, zeros + 1);
    }
}

proof fn lemma_escaped(d: Seq<u8>, i: int, zeros: int)
    requires
        0 <= i <= d.len(),
        0 <= zeros,
    ensures
        sps::unescaped(escaped(d, i, zeros), 0, zeros) == d.skip(i),
    decreases d.len() - i,
{
    let e = escaped(d, i, zeros);
    if i < d.len() {
        let b = d[i];
        assert(d.skip(i) =~= seq![b] + d.skip(i + 1));
        if zeros >= 2 && b <= 3 {
            let z: int = if b == 0 {
                1
            } else {
                0
            };
            let rest = escaped(d, i + 1, z);
            lemma_escaped(d, i + 1, z);
            assert(e[0] == 3 && e[1] == b);
            assert(e.skip(2) =~= rest.skip(0));
            lemma_unescaped_tail(e, rest, 2, 0, z);
            assert(sps::unescaped(e, 0, zeros) == sps::unescaped(e, 1, 0));
            assert(sps::unescaped(e, 1, 0) == seq![b] + sps::unescaped(e, 2, z));
        } else {
            let z: int = if b == 0 {
                zeros + 1
            } else {
                0
            };
            let rest = escaped(d, i + 1, z);
            lemma_escaped(d, i + 1, z);
            assert(e[0] == b);
            assert(e.skip(1) =~= rest.skip(0));
            lemma_unescaped_tail(e, rest, 1, 0, z);
        }
    } else {
        assert(d.skip(i) =~= Seq::<u8>::empty());
    }
}

/// Emulation prevention is undone, whatever the bytes.
pub proof fn law_emulation_prevention_is_undone(d: Seq<u8>)
    ensures
        sps::unescaped(escaped(d, 0, 0), 0, 0) == d,
{
    lemma_escaped(d, 0, 0);
    assert(d.skip(0) =~= d);
}

/// Whether bits stand in bytes, from bit `p` on.
#[verifier::opaque]
pub open spec fn carries(d: Seq<u8>, p: int, bits: Seq<bool>) -> bool {
    &&& 0 <= p
    &&& p + bits.len() <= 8 * d.len()
    &&& forall|i: int|
        #![trigger bits[i]]
        0 <= i < bits.len() ==> (sps::bit(d, p + i) == 1) == bits[i]
}

/// The lowest `n` bits of a number, the highest of them first.
#[verifier::opaque]
pub open spec fn fixed(v: nat, n: nat) -> Seq<bool>
    decreases n,
{
    if n == 0 {
        Seq::empty()
    } else {
        fixed(v / 2, (n - 1) as nat).push(v % 2 == 1)
    }
}

/// How many bits of a number stand behind its highest one.
pub open spec fn width(x: nat) -> nat
    decreases x,
{
    if x <= 1 {
        0
    } else {
        1 + width(x / 2)
    }
}

/// The Exp-Golomb code of a number: the number and one in as many bits as it has, behind a zero
/// for each of them but the first.
#[verifier::opaque]
pub open spec fn ue(v: nat) -> Seq<bool> {
    Seq::new(width(v + 1), |i: int| false) + fixed(v + 1, width(v + 1) + 1)
}

/// Exp-Golomb codes one behind the other.
#[verifier::opaque]
pub open spec fn ues(v: Seq<nat>) -> Seq<bool>
    decreases v.len(),
{
    if v.len() == 0 {
        Seq::empty()
    } else {
        ues(v.drop_last()) + ue(v.last())
    }
}

/// Whether numbers fit an Exp-Golomb code of 32 bits.
pub open spec fn codes(v: Seq<nat>) -> bool {
    forall|i: int| 0 <= i < v.len() ==> #[trigger] v[i] < 0xffff_ffff
}

proof fn lemma_split(d: Seq<u8>, p: int, a: Seq<bool>, b: Seq<bool>)
    requires
        carries(d, p, a + b),
    ensures
        carries(d, p, a),
        carries(d, p + a.len(), b),
{
    reveal(carries);
    let s = a + b;
    assert forall|i: int| #![trigger a[i]] 0 <= i < a.len() implies (sps::bit(d, p + i) == 1)
        == a[i] by {
        assert(s[i] == a[i]);
    }
    assert forall|i: int| #![trigger b[i]] 0 <= i < b.len() implies (sps::bit(
        d,
        p + a.len() + i,
    ) == 1) == b[i] by {
        assert(s[a.len() + i] == b[i]);
    }
}

proof fn lemma_fixed_len(v: nat, n: nat)
    ensures
        fixed(v, n).len() == n,
    decreases n,
{
    reveal_with_fuel(fixed, 2);
    if n > 0 {
        lemma_fixed_len(v / 2, (n - 1) as nat);
    }
}

proof fn lemma_fixed(d: Seq<u8>, p: int, v: nat, n: nat)
    requires
        carries(d, p, fixed(v, n)),
        v < pow2(n),
    ensures
        fixed(v, n).len() == n,
        sps::value(d, p, n) == v,
        p + n <= 8 * d.len(),
    decreases n,
{
    lemma_fixed_len(v, n);
    reveal_with_fuel(fixed, 2);
    if n == 0 {
        vstd::arithmetic::power2::lemma2_to64();
        reveal(carries);
    } else {
        let m = (n - 1) as nat;
        let last = seq![v % 2 == 1];
        lemma_fixed_len(v / 2, m);
        assert(fixed(v, n) =~= fixed(v / 2, m) + last);
        lemma_split(d, p, fixed(v / 2, m), last);
        lemma_pow2_unfold(n);
        lemma_fixed(d, p, v / 2, m);
        reveal(carries);
        assert(last[0] == (sps::bit(d, p + m + 0) == 1));
    }
}

proof fn lemma_value_first(d: Seq<u8>, p: int, n: nat)
    ensures
        sps::value(d, p, n + 1) == sps::bit(d, p) * pow2(n) + sps::value(d, p + 1, n),
        sps::value(d, p, n) < pow2(n),
    decreases n,
{
    vstd::arithmetic::power2::lemma2_to64();
    if n == 0 {
        assert(sps::value(d, p, 1) == 2 * sps::value(d, p, 0) + sps::bit(d, p));
    } else {
        let m = (n - 1) as nat;
        lemma_value_first(d, p, m);
        lemma_pow2_unfold(n);
        let b = sps::bit(d, p);
        assert(2 * (b * pow2(m)) == b * pow2(n)) by (nonlinear_arith)
            requires
                pow2(n) == 2 * pow2(m),
        ;
        assert(p + (n + 1) - 1 == p + 1 + n - 1);
    }
}

proof fn lemma_width(x: nat)
    requires
        x >= 1,
    ensures
        pow2(width(x)) <= x < pow2(width(x) + 1),
    decreases x,
{
    vstd::arithmetic::power2::lemma2_to64();
    if x > 1 {
        lemma_width(x / 2);
        lemma_pow2_unfold(width(x));
        lemma_pow2_unfold(width(x) + 1);
    }
}

proof fn lemma_zeros(d: Seq<u8>, p: int, z: nat, k: nat)
    requires
        z < k,
        forall|i: int| 0 <= i < z ==> #[trigger] sps::bit(d, p + i) == 0,
        sps::bit(d, p + z) == 1,
    ensures
        sps::zeros_from(d, p, k) == z,
    decreases z,
{
    if z > 0 {
        assert(sps::bit(d, p + 0) == 0);
        assert forall|i: int| 0 <= i < z - 1 implies #[trigger] sps::bit(d, p + 1 + i) == 0 by {
            assert(sps::bit(d, p + (i + 1)) == 0);
        }
        lemma_zeros(d, p + 1, (z - 1) as nat, (k - 1) as nat);
    } else {
        assert(p + z == p);
    }
}

/// A number written as an Exp-Golomb code is read back, and reading goes on behind the code.
pub proof fn law_code_is_read_back(d: Seq<u8>, p: int, v: nat)
    requires
        carries(d, p, ue(v)),
        v < 0xffff_ffff,
    ensures
        sps::ue_value(d, p) == v,
        sps::after_ue(d, p) == p + ue(v).len(),
        p + ue(v).len() <= 8 * d.len(),
{
    reveal(ue);
    let z = width(v + 1);
    let none = Seq::new(z, |i: int| false);
    let code = fixed(v + 1, z + 1);
    lemma_split(d, p, none, code);
    lemma_width(v + 1);
    lemma_fixed_len(v + 1, z + 1);
    lemma_fixed(d, p + z, v + 1, z + 1);
    vstd::arithmetic::power2::lemma2_to64();
    if z >= 32 {
        if z > 32 {
            lemma_pow2_strictly_increases(32, z);
        }
    }
    lemma_value_first(d, p + z, z);
    lemma_value_first(d, p + z + 1, z);
    assert(sps::bit(d, p + z) == 1) by {
        if sps::bit(d, p + z) == 0 {
            assert(0 * pow2(z) == 0);
        }
    }
    assert(1 * pow2(z) == pow2(z));
    assert forall|i: int| 0 <= i < z implies #[trigger] sps::bit(d, p + i) == 0 by {
        reveal(carries);
        assert(none[i] == false);
    }
    lemma_zeros(d, p, z, 32);
}

/// A number written in `n` bits is read back.
pub proof fn law_bits_are_read_back(d: Seq<u8>, p: int, v: nat, n: nat)
    requires
        carries(d, p, fixed(v, n)),
        v < pow2(n),
    ensures
        sps::value(d, p, n) == v,
        sps::ahead(d, p, n as int) == p + n,
{
    lemma_fixed(d, p, v, n);
}

proof fn read_bit(d: Seq<u8>, p: int, b: bool, rest: Seq<bool>)
    requires
        carries(d, p, seq![b] + rest),
    ensures
        sps::bit(d, p) == (if b {
            1nat
        } else {
            0nat
        }),
        sps::ahead(d, p, 1) == p + 1,
        carries(d, p + 1, rest),
{
    lemma_split(d, p, seq![b], rest);
    reveal(carries);
    assert(seq![b][0] == (sps::bit(d, p + 0) == 1));
}

proof fn read_bits(d: Seq<u8>, p: int, bits: Seq<bool>, rest: Seq<bool>)
    requires
        carries(d, p, bits + rest),
    ensures
        sps::ahead(d, p, bits.len() as int) == p + bits.len(),
        carries(d, p + bits.len(), rest),
{
    lemma_split(d, p, bits, rest);
    reveal(carries);
}

proof fn read_fixed(d: Seq<u8>, p: int, v: nat, n: nat, rest: Seq<bool>)
    requires
        carries(d, p, fixed(v, n) + rest),
        v < pow2(n),
    ensures
        sps::value(d, p, n) == v,
        sps::ahead(d, p, n as int) == p + n,
        carries(d, p + n, rest),
{
    lemma_fixed_len(v, n);
    lemma_split(d, p, fixed(v, n), rest);
    lemma_fixed(d, p, v, n);
}

proof fn read_ue(d: Seq<u8>, p: int, v: nat, rest: Seq<bool>)
    requires
        carries(d, p, ue(v) + rest),
        v < 0xffff_ffff,
    ensures
        sps::ue_value(d, p) == v,
        carries(d, sps::after_ue(d, p), rest),
{
    lemma_split(d, p, ue(v), rest);
    law_code_is_read_back(d, p, v);
}

proof fn lemma_ues(d: Seq<u8>, p: int, v: Seq<nat>)
    requires
        carries(d, p, ues(v)),
        codes(v),
    ensures
        sps::after_ues(d, p, v.len()) == p + ues(v).len(),
    decreases v.len(),
{
    reveal_with_fuel(ues, 2);
    if v.len() > 0 {
        let w = v.drop_last();
        lemma_split(d, p, ues(w), ue(v.last()));
        assert forall|i: int| 0 <= i < w.len() implies #[trigger] w[i] < 0xffff_ffff by {
            assert(w[i] == v[i]);
        }
        lemma_ues(d, p, w);
        assert(v[v.len() - 1] < 0xffff_ffff);
        law_code_is_read_back(d, p + ues(w).len(), v.last());
    }
}

proof fn read_ues(d: Seq<u8>, p: int, v: Seq<nat>, rest: Seq<bool>)
    requires
        carries(d, p, ues(v) + rest),
        codes(v),
    ensures
        carries(d, sps::after_ues(d, p, v.len()), rest),
{
    lemma_split(d, p, ues(v), rest);
    lemma_ues(d, p, v);
}

/// What the video usability information of a parameter set states before its timing.
pub struct Usability {
    /// The aspect ratio; 255 stands before one of 32 bits.
    pub aspect: Option<nat>,
    pub extended: Seq<bool>,
    pub overscan: Option<bool>,
    /// The video format and the full range flag, as 4 bits.
    pub signal: Option<Seq<bool>>,
    /// Primaries, transfer characteristics and matrix; only where a signal is stated.
    pub colours: Option<(nat, nat, nat)>,
}

impl Usability {
    pub open spec fn wf(self) -> bool {
        &&& self.aspect is Some ==> self.aspect->0 < 256
        &&& self.extended.len() == 32
        &&& self.signal is Some ==> self.signal->0.len() == 4
        &&& self.colours matches Some((a, b, c)) ==> a < 256 && b < 256 && c < 256
    }

    /// The colours, behind the flag that says whether they are stated.
    pub open spec fn colour_bits(self) -> Seq<bool> {
        match self.colours {
            Some((a, b, c)) => seq![true] + (fixed(a, 8) + (fixed(b, 8) + fixed(c, 8))),
            None => seq![false],
        }
    }

    pub open spec fn signal_bits(self) -> Seq<bool> {
        match self.signal {
            Some(s) => seq![true] + (s + self.colour_bits()),
            None => seq![false],
        }
    }

    pub open spec fn overscan_bits(self, rest: Seq<bool>) -> Seq<bool> {
        match self.overscan {
            Some(b) => seq![true] + (seq![b] + rest),
            None => seq![false] + rest,
        }
    }

    pub open spec fn aspect_bits(self, rest: Seq<bool>) -> Seq<bool> {
        match self.aspect {
            Some(a) => seq![true] + (fixed(a, 8) + (if a == 255 {
                self.extended + rest
            } else {
                rest
            })),
            None => seq![false] + rest,
        }
    }

    /// The information behind the flag that says that it is stated.
    #[verifier::opaque]
    pub open spec fn bits(self) -> Seq<bool> {
        seq![true] + self.aspect_bits(self.overscan_bits(self.signal_bits()))
    }

    /// The range that the colours mean: the transfer characteristics of PQ have the number 16,
    /// those of HLG 18.
    pub open spec fn range(self) -> VideoRange {
        if self.signal is None || self.colours is None {
            VideoRange::Sdr
        } else {
            let (_, t, _) = self.colours->0;
            if t == 16 {
                VideoRange::Pq
            } else if t == 18 {
                VideoRange::Hlg
            } else {
                VideoRange::Sdr
            }
        }
    }
}

/// The range is what the colours in the usability information mean, whatever stands before them.
pub proof fn law_usability_states_range(d: Seq<u8>, p: int, u: Usability, rest: Seq<bool>)
    requires
        u.wf(),
        carries(d, p, u.bits() + rest),
    ensures
        sps::vui_range(d, p) == u.range(),
{
    reveal(Usability::bits);
    vstd::arithmetic::power2::lemma2_to64();
    lemma_split(d, p, u.bits(), rest);
    let s = u.signal_bits();
    let o = u.overscan_bits(s);
    let a = p + 1;
    read_bit(d, p, true, u.aspect_bits(o));
    let a1 = a + 1;
    let a2 = match u.aspect {
        Some(n) => {
            let r = if n == 255 {
                u.extended + o
            } else {
                o
            };
            read_bit(d, a, true, fixed(n, 8) + r);
            read_fixed(d, a1, n, 8, r);
            if n == 255 {
                read_bits(d, a1 + 8, u.extended, o);
                a1 + 40
            } else {
                a1 + 8
            }
        },
        None => {
            read_bit(d, a, false, o);
            a1
        },
    };
    assert(carries(d, a2, o));
    let q = match u.overscan {
        Some(b) => {
            read_bit(d, a2, true, seq![b] + s);
            read_bit(d, a2 + 1, b, s);
            a2 + 2
        },
        None => {
            read_bit(d, a2, false, s);
            a2 + 1
        },
    };
    assert(carries(d, q, s));
    match u.signal {
        Some(g) => {
            let c = u.colour_bits();
            read_bit(d, q, true, g + c);
            read_bits(d, q + 1, g, c);
            assert(sps::ahead(d, q, 5) == q + 5);
            match u.colours {
                Some((x, y, z)) => {
                    let e = fixed(y, 8) + fixed(z, 8);
                    read_bit(d, q + 5, true, fixed(x, 8) + e);
                    read_fixed(d, q + 6, x, 8, e);
                    assert(sps::ahead(d, q + 5, 9) == q + 14);
                    read_fixed(d, q + 14, y, 8, fixed(z, 8));
                },
                None => {
                    assert(seq![false] + Seq::<bool>::empty() =~= c);
                    read_bit(d, q + 5, false, Seq::empty());
                },
            }
        },
        None => {
            assert(seq![false] + Seq::<bool>::empty() =~= s);
            read_bit(d, q, false, Seq::empty());
        },
    }
}

/// The fields of an H.264 sequence parameter set up to the usability information.
pub struct AvcFields {
    pub profile: nat,
    /// Constraint flags and the level, as 16 bits.
    pub level: Seq<bool>,
    pub id: nat,
    /// For a profile with chroma information: the chroma format.
    pub chroma: nat,
    pub separate: bool,
    /// The two bit depths.
    pub depths: Seq<nat>,
    pub bypass: bool,
    pub frame_num: nat,
    pub order: nat,
    /// For order 0.
    pub order_lsb: nat,
    /// For order 1.
    pub order_flag: bool,
    pub order_fields: Seq<nat>,
    pub order_cycle: Seq<nat>,
    pub references: nat,
    pub gaps: bool,
    /// Width and height in macroblocks.
    pub size: Seq<nat>,
    pub frames_only: bool,
    pub adaptive: bool,
    pub direct: bool,
    pub crop: Option<Seq<nat>>,
}

impl AvcFields {
    pub open spec fn wf(self) -> bool {
        &&& self.profile < 256
        &&& self.level.len() == 16
        &&& codes(
            seq![
                self.id,
                self.chroma,
                self.frame_num,
                self.order,
                self.order_lsb,
                self.order_cycle.len(),
                self.references,
            ],
        )
        &&& self.depths.len() == 2 && codes(self.depths)
        &&& self.order_fields.len() == 2 && codes(self.order_fields)
        &&& codes(self.order_cycle)
        &&& self.size.len() == 2 && codes(self.size)
        &&& self.crop matches Some(c) ==> c.len() == 4 && codes(c)
    }

    /// Whether the profile is one of those that may have other samples than 8 bits of 4:2:0.
    #[verifier::opaque]
    pub open spec fn has_chroma(self) -> bool {
        seq![44nat, 83, 86, 100, 110, 118, 122, 128, 134, 135, 138, 139, 244].contains(self.profile)
    }

    pub open spec fn crop_bits(self, rest: Seq<bool>) -> Seq<bool> {
        match self.crop {
            Some(c) => seq![true] + (ues(c) + rest),
            None => seq![false] + rest,
        }
    }

    pub open spec fn frame_bits(self, rest: Seq<bool>) -> Seq<bool> {
        let r = seq![self.direct] + self.crop_bits(rest);
        seq![self.frames_only] + (if self.frames_only {
            r
        } else {
            seq![self.adaptive] + r
        })
    }

    pub open spec fn order_bits(self, rest: Seq<bool>) -> Seq<bool> {
        ue(self.order) + (if self.order == 0 {
            ue(self.order_lsb) + rest
        } else if self.order == 1 {
            seq![self.order_flag] + (ues(self.order_fields) + (ue(self.order_cycle.len()) + (ues(
                self.order_cycle,
            ) + rest)))
        } else {
            rest
        })
    }

    /// The picture fields, behind the frame number field.
    #[verifier::opaque]
    pub open spec fn picture_bits(self, rest: Seq<bool>) -> Seq<bool> {
        self.order_bits(
            ue(self.references) + (seq![self.gaps] + (ues(self.size) + self.frame_bits(rest))),
        )
    }

    pub open spec fn chroma_bits(self, rest: Seq<bool>) -> Seq<bool> {
        let r = ues(self.depths) + (seq![self.bypass] + (seq![false] + rest));
        ue(self.chroma) + (if self.chroma == 3 {
            seq![self.separate] + r
        } else {
            r
        })
    }

    /// All fields, with no scaling matrix.
    pub open spec fn bits(self, rest: Seq<bool>) -> Seq<bool> {
        let r = ue(self.frame_num) + self.picture_bits(rest);
        fixed(self.profile, 8) + (self.level + (ue(self.id) + (if self.has_chroma() {
            self.chroma_bits(r)
        } else {
            r
        })))
    }
}

proof fn lemma_chroma(f: AvcFields)
    ensures
        f.has_chroma() == sps::has_chroma_info(f.profile),
{
    reveal(AvcFields::has_chroma);
    let s = seq![44nat, 83, 86, 100, 110, 118, 122, 128, 134, 135, 138, 139, 244];
    let x = f.profile;
    if sps::has_chroma_info(x) {
        assert(s[0] == 44 && s[1] == 83 && s[2] == 86 && s[3] == 100 && s[4] == 110 && s[5] == 118
            && s[6] == 122 && s[7] == 128 && s[8] == 134 && s[9] == 135 && s[10] == 138 && s[11]
            == 139 && s[12] == 244);
        assert(s.contains(x));
    }
}

proof fn lemma_picture(d: Seq<u8>, p1: int, f: AvcFields, rest: Seq<bool>) -> (p6: int)
    requires
        f.wf(),
        carries(d, p1, f.picture_bits(rest)),
    ensures
        carries(d, p6, rest),
        p6 == ({
            let poc = sps::ue_value(d, p1);
            let p2 = sps::after_ue(d, p1);
            let p3 = if poc == 0 {
                sps::after_ue(d, p2)
            } else if poc == 1 {
                let n = sps::after_ues(d, sps::ahead(d, p2, 1), 2);
                sps::after_ues(d, sps::after_ue(d, n), sps::ue_value(d, n) as nat)
            } else {
                p2
            };
            let p4 = sps::after_ues(d, sps::ahead(d, sps::after_ue(d, p3), 1), 2);
            let p5 = sps::ahead(d, sps::ahead_if(d, sps::ahead(d, p4, 1), sps::bit(d, p4) == 0, 1), 1);
            if sps::bit(d, p5) == 1 {
                sps::after_ues(d, sps::ahead(d, p5, 1), 4)
            } else {
                sps::ahead(d, p5, 1)
            }
        }),
{
    reveal(AvcFields::picture_bits);
    let all = seq![
        f.id,
        f.chroma,
        f.frame_num,
        f.order,
        f.order_lsb,
        f.order_cycle.len(),
        f.references,
    ];
    assert(all[3] < 0xffff_ffff && all[4] < 0xffff_ffff && all[5] < 0xffff_ffff && all[6]
        < 0xffff_ffff);
    let fb = f.frame_bits(rest);
    let sz = ues(f.size) + fb;
    let rf = ue(f.references) + (seq![f.gaps] + sz);
    let p2 = sps::after_ue(d, p1);
    let p3 = if f.order == 0 {
        read_ue(d, p1, f.order, ue(f.order_lsb) + rf);
        read_ue(d, p2, f.order_lsb, rf);
        sps::after_ue(d, p2)
    } else if f.order == 1 {
        let cy = ues(f.order_cycle) + rf;
        let nn = ue(f.order_cycle.len()) + cy;
        let of = ues(f.order_fields) + nn;
        read_ue(d, p1, f.order, seq![f.order_flag] + of);
        read_bit(d, p2, f.order_flag, of);
        read_ues(d, p2 + 1, f.order_fields, nn);
        let n = sps::after_ues(d, p2 + 1, 2);
        read_ue(d, n, f.order_cycle.len(), cy);
        let m = sps::after_ue(d, n);
        read_ues(d, m, f.order_cycle, rf);
        sps::after_ues(d, m, f.order_cycle.len())
    } else {
        read_ue(d, p1, f.order, rf);
        p2
    };
    assert(carries(d, p3, rf));
    read_ue(d, p3, f.references, seq![f.gaps] + sz);
    let g = sps::after_ue(d, p3);
    read_bit(d, g, f.gaps, sz);
    read_ues(d, g + 1, f.size, fb);
    let p4 = sps::after_ues(d, g + 1, 2);
    let cb = f.crop_bits(rest);
    let di = seq![f.direct] + cb;
    let p5 = if f.frames_only {
        read_bit(d, p4, true, di);
        read_bit(d, p4 + 1, f.direct, cb);
        p4 + 2
    } else {
        read_bit(d, p4, false, seq![f.adaptive] + di);
        read_bit(d, p4 + 1, f.adaptive, di);
        read_bit(d, p4 + 2, f.direct, cb);
        p4 + 3
    };
    match f.crop {
        Some(c) => {
            read_bit(d, p5, true, ues(c) + rest);
            read_ues(d, p5 + 1, c, rest);
            sps::after_ues(d, p5 + 1, 4)
        },
        None => {
            read_bit(d, p5, false, rest);
            p5 + 1
        },
    }
}

proof fn lemma_avc_head(d: Seq<u8>, f: AvcFields, rest: Seq<bool>) -> (before: int)
    requires
        f.wf(),
        carries(d, 0, f.bits(rest)),
    ensures
        carries(d, before, ue(f.frame_num) + f.picture_bits(rest)),
        sps::value(d, 0, 8) == f.profile,
        ({
            let p0 = sps::after_ue(d, sps::ahead(d, 0, 24));
            let q = sps::ahead_if(d, sps::after_ue(d, p0), sps::ue_value(d, p0) == 3, 1);
            let q2 = sps::ahead(d, sps::after_ues(d, q, 2), 1);
            &&& f.has_chroma() ==> sps::bit(d, q2) == 0 && before == sps::ahead(d, q2, 1)
            &&& !f.has_chroma() ==> before == p0
        }),
{
    vstd::arithmetic::power2::lemma2_to64();
    let all = seq![
        f.id,
        f.chroma,
        f.frame_num,
        f.order,
        f.order_lsb,
        f.order_cycle.len(),
        f.references,
    ];
    assert(all[0] < 0xffff_ffff && all[1] < 0xffff_ffff);
    let r = ue(f.frame_num) + f.picture_bits(rest);
    let chroma = f.has_chroma();
    let cb = if chroma {
        f.chroma_bits(r)
    } else {
        r
    };
    read_fixed(d, 0, f.profile, 8, f.level + (ue(f.id) + cb));
    read_bits(d, 8, f.level, ue(f.id) + cb);
    assert(sps::ahead(d, 0, 24) == 24);
    read_ue(d, 24, f.id, cb);
    let p0 = sps::after_ue(d, 24);
    if chroma {
        let sc = seq![false] + r;
        let by = seq![f.bypass] + sc;
        let de = ues(f.depths) + by;
        let q0 = sps::after_ue(d, p0);
        let q = if f.chroma == 3 {
            read_ue(d, p0, f.chroma, seq![f.separate] + de);
            read_bit(d, q0, f.separate, de);
            q0 + 1
        } else {
            read_ue(d, p0, f.chroma, de);
            q0
        };
        read_ues(d, q, f.depths, by);
        let b = sps::after_ues(d, q, 2);
        read_bit(d, b, f.bypass, sc);
        read_bit(d, b + 1, false, r);
        b + 2
    } else {
        p0
    }
}

/// An H.264 sequence parameter set without a scaling matrix gives the range that its usability
/// information means, whatever its other fields state.
pub proof fn law_avc_parameters_state_range(
    d: Seq<u8>,
    f: AvcFields,
    u: Usability,
    rest: Seq<bool>,
)
    requires
        f.wf(),
        u.wf(),
        carries(d, 0, f.bits(u.bits() + rest)),
    ensures
        sps::h264_range(d) == u.range(),
{
    let ub = u.bits() + rest;
    let all = seq![
        f.id,
        f.chroma,
        f.frame_num,
        f.order,
        f.order_lsb,
        f.order_cycle.len(),
        f.references,
    ];
    assert(all[2] < 0xffff_ffff);
    lemma_chroma(f);
    let before = lemma_avc_head(d, f, ub);
    read_ue(d, before, f.frame_num, f.picture_bits(ub));
    let p6 = lemma_picture(d, sps::after_ue(d, before), f, ub);
    law_usability_states_range(d, p6, u, rest);
}

/// How many bits the profiles and levels of sub-layers take: 88 for a profile, 8 for a level.
pub open spec fn sub_layer_bits(layers: Seq<(bool, bool)>) -> nat
    decreases layers.len(),
{
    if layers.len() == 0 {
        0
    } else {
        let (profile, level) = layers[0];
        (if profile {
            88nat
        } else {
            0
        }) + (if level {
            8nat
        } else {
            0
        }) + sub_layer_bits(layers.skip(1))
    }
}

/// A code and a flag, and so on.
#[verifier::opaque]
pub open spec fn flagged(v: Seq<(nat, bool)>) -> Seq<bool>
    decreases v.len(),
{
    if v.len() == 0 {
        Seq::empty()
    } else {
        let (n, b) = v.last();
        flagged(v.drop_last()) + (ue(n) + seq![b])
    }
}

proof fn read_flagged(d: Seq<u8>, p: int, v: Seq<(nat, bool)>, rest: Seq<bool>)
    requires
        carries(d, p, flagged(v) + rest),
        forall|i: int| 0 <= i < v.len() ==> (#[trigger] v[i]).0 < 0xffff_ffff,
    ensures
        carries(d, sps::after_ue_bits(d, p, v.len()), rest),
    decreases v.len(),
{
    reveal_with_fuel(flagged, 2);
    if v.len() == 0 {
        assert(flagged(v) + rest =~= rest);
    } else {
        let w = v.drop_last();
        let (n, b) = v[v.len() - 1];
        let r = seq![b] + rest;
        assert(flagged(v) + rest =~= flagged(w) + (ue(n) + r));
        assert forall|i: int| 0 <= i < w.len() implies (#[trigger] w[i]).0 < 0xffff_ffff by {
            assert(w[i] == v[i]);
        }
        read_flagged(d, p, w, ue(n) + r);
        let q = sps::after_ue_bits(d, p, w.len());
        assert(v[v.len() - 1].0 == n);
        read_ue(d, q, n, r);
        read_bit(d, sps::after_ue(d, q), b, rest);
    }
}

/// The flags of the sub-layers, two for each and eight pairs in all.
pub open spec fn layer_flags(layers: Seq<(bool, bool)>) -> Seq<bool> {
    Seq::new(
        16,
        |i: int|
            i / 2 < layers.len() && (if i % 2 == 0 {
                layers[i / 2].0
            } else {
                layers[i / 2].1
            }),
    )
}

proof fn lemma_sub_layers(d: Seq<u8>, flags: int, p: int, layers: Seq<(bool, bool)>, i: nat)
    requires
        carries(d, flags, layer_flags(layers)),
        layers.len() <= 8,
        i <= layers.len(),
        p + sub_layer_bits(layers.skip(i as int)) <= 8 * d.len(),
    ensures
        sps::after_sub_layers(d, flags, p, i, layers.len()) == p + sub_layer_bits(
            layers.skip(i as int),
        ),
    decreases layers.len() - i,
{
    let s = layers.skip(i as int);
    if i < layers.len() {
        let (a, b) = layers[i as int];
        assert(s[0] == layers[i as int]);
        assert(s.skip(1) =~= layers.skip(i as int + 1));
        let fl = layer_flags(layers);
        assert((sps::bit(d, flags + 2 * i) == 1) == a && (sps::bit(d, flags + 2 * i + 1) == 1) == b)
            by {
            reveal(carries);
            assert(fl[2 * i as int] == a);
            assert(fl[2 * i as int + 1] == b);
            assert(flags + (2 * i + 1) == flags + 2 * i + 1);
        }
        let q: int = if a {
            p + 88
        } else {
            p
        };
        let r: int = if b {
            q + 8
        } else {
            q
        };
        lemma_sub_layers(d, flags, r, layers, i + 1);
    } else {
        assert(s.len() == 0);
    }
}

/// The fields of an HEVC sequence parameter set up to the usability information.
pub struct HevcFields {
    /// The identifier of the video parameter set, 4 bits.
    pub video_id: nat,
    pub nesting: bool,
    /// The general profile, tier and level, 96 bits.
    pub profile: Seq<bool>,
    /// For each sub-layer, whether a profile and whether a level is stated.
    pub layers: Seq<(bool, bool)>,
    /// The profiles and levels of the sub-layers.
    pub layer_data: Seq<bool>,
    pub id: nat,
    pub chroma: nat,
    pub separate: bool,
    /// Width and height.
    pub size: Seq<nat>,
    pub window: Option<Seq<nat>>,
    /// The two bit depths and the size of the picture order count.
    pub depths: Seq<nat>,
    /// Whether each sub-layer has its own ordering.
    pub all_ordered: bool,
    /// Three numbers for each ordering.
    pub ordering: Seq<nat>,
    /// The sizes and depths of the coding blocks.
    pub blocks: Seq<nat>,
    pub motion: Seq<bool>,
    /// Sample depths, block sizes and the filter flag of PCM.
    pub pcm: Option<(Seq<bool>, Seq<nat>, bool)>,
    pub long_term: Option<Seq<(nat, bool)>>,
    /// Motion prediction and smoothing, 2 bits.
    pub prediction: Seq<bool>,
}

impl HevcFields {
    pub open spec fn wf(self) -> bool {
        &&& self.video_id < 16
        &&& self.profile.len() == 96
        &&& self.layers.len() < 8
        &&& self.layer_data.len() == sub_layer_bits(self.layers)
        &&& self.id < 0xffff_ffff
        &&& self.chroma < 0xffff_ffff
        &&& self.size.len() == 2 && codes(self.size)
        &&& self.window matches Some(w) ==> w.len() == 4 && codes(w)
        &&& self.depths.len() == 3 && codes(self.depths)
        &&& self.ordering.len() == 3 * (if self.all_ordered {
            self.layers.len() + 1
        } else {
            1nat
        }) && codes(self.ordering)
        &&& self.blocks.len() == 6 && codes(self.blocks)
        &&& self.motion.len() == 2
        &&& self.pcm matches Some((s, b, _)) ==> s.len() == 8 && b.len() == 2 && codes(b)
        &&& self.long_term matches Some(l) ==> l.len() < 0xffff_ffff && forall|i: int|
            0 <= i < l.len() ==> (#[trigger] l[i]).0 < 0xffff_ffff
        &&& self.prediction.len() == 2
    }

    pub open spec fn long_bits(self, rest: Seq<bool>) -> Seq<bool> {
        let r = self.prediction + rest;
        match self.long_term {
            Some(l) => seq![true] + (ue(l.len()) + (flagged(l) + r)),
            None => seq![false] + r,
        }
    }

    pub open spec fn pcm_bits(self, rest: Seq<bool>) -> Seq<bool> {
        match self.pcm {
            Some((s, b, x)) => seq![true] + (s + (ues(b) + (seq![x] + rest))),
            None => seq![false] + rest,
        }
    }

    /// The fields from the block sizes on, with no scaling list and no short-term reference sets.
    #[verifier::opaque]
    pub open spec fn coding_bits(self, rest: Seq<bool>) -> Seq<bool> {
        ues(self.blocks) + (seq![false] + (self.motion + self.pcm_bits(
            ue(0) + self.long_bits(rest),
        )))
    }

    pub open spec fn ordering_bits(self, rest: Seq<bool>) -> Seq<bool> {
        seq![self.all_ordered] + (ues(self.ordering) + rest)
    }

    pub open spec fn window_bits(self, rest: Seq<bool>) -> Seq<bool> {
        match self.window {
            Some(w) => seq![true] + (ues(w) + rest),
            None => seq![false] + rest,
        }
    }

    /// The fields from the identifier on.
    #[verifier::opaque]
    pub open spec fn picture_bits(self, rest: Seq<bool>) -> Seq<bool> {
        let r = ues(self.size) + self.window_bits(
            ues(self.depths) + self.ordering_bits(self.coding_bits(rest)),
        );
        ue(self.id) + (ue(self.chroma) + (if self.chroma == 3 {
            seq![self.separate] + r
        } else {
            r
        }))
    }

    pub open spec fn layer_bits(self, rest: Seq<bool>) -> Seq<bool> {
        if self.layers.len() == 0 {
            rest
        } else {
            layer_flags(self.layers) + (self.layer_data + rest)
        }
    }

    pub open spec fn bits(self, rest: Seq<bool>) -> Seq<bool> {
        fixed(self.video_id, 4) + (fixed(self.layers.len(), 3) + (seq![self.nesting] + (self.profile
            + self.layer_bits(self.picture_bits(rest)))))
    }
}

proof fn lemma_layers(d: Seq<u8>, f: HevcFields, rest: Seq<bool>) -> (p: int)
    requires
        f.wf(),
        carries(d, 0, f.bits(rest)),
    ensures
        sps::value(d, sps::ahead(d, 0, 4), 3) == f.layers.len(),
        p == sps::after_ptl(d, sps::ahead(d, 0, 8), f.layers.len()),
        carries(d, p, f.picture_bits(rest)),
{
    vstd::arithmetic::power2::lemma2_to64();
    let n = f.layers.len();
    let pb = f.picture_bits(rest);
    let lb = f.layer_bits(pb);
    let pr = f.profile + lb;
    let ne = seq![f.nesting] + pr;
    read_fixed(d, 0, f.video_id, 4, fixed(n, 3) + ne);
    read_fixed(d, 4, n, 3, ne);
    read_bit(d, 7, f.nesting, pr);
    read_bits(d, 8, f.profile, lb);
    assert(sps::ahead(d, 0, 8) == 8);
    assert(sps::ahead(d, 8, 96) == 104);
    if n == 0 {
        104
    } else {
        let fl = layer_flags(f.layers);
        lemma_split(d, 104, fl, f.layer_data + pb);
        read_bits(d, 104, fl, f.layer_data + pb);
        read_bits(d, 120, f.layer_data, pb);
        assert(f.layers.skip(0) =~= f.layers);
        assert(120 + f.layer_data.len() <= 8 * d.len()) by {
            reveal(carries);
        }
        lemma_sub_layers(d, 104, 120, f.layers, 0);
        120int + f.layer_data.len()
    }
}

/// The position behind the ordering fields, as it is found from the position of the identifier.
spec fn coding_at(d: Seq<u8>, p: int, n: nat) -> int {
    let p0 = sps::after_ue(d, p);
    let p1 = sps::ahead_if(d, sps::after_ue(d, p0), sps::ue_value(d, p0) == 3, 1);
    let w = sps::after_ues(d, p1, 2);
    let p2 = if sps::bit(d, w) == 1 {
        sps::after_ues(d, sps::ahead(d, w, 1), 4)
    } else {
        sps::ahead(d, w, 1)
    };
    let o = sps::after_ues(d, p2, 3);
    let layers: nat = if sps::bit(d, o) == 1 {
        n + 1
    } else {
        1
    };
    sps::after_ues(d, sps::ahead(d, o, 1), 3 * layers)
}

proof fn lemma_hevc_picture(d: Seq<u8>, p: int, f: HevcFields, rest: Seq<bool>)
    requires
        f.wf(),
        carries(d, p, f.picture_bits(rest)),
    ensures
        carries(d, coding_at(d, p, f.layers.len()), f.coding_bits(rest)),
{
    reveal(HevcFields::picture_bits);
    let cb = f.coding_bits(rest);
    let ob = f.ordering_bits(cb);
    let de = ues(f.depths) + ob;
    let wb = f.window_bits(de);
    let sz = ues(f.size) + wb;
    let ch = if f.chroma == 3 {
        seq![f.separate] + sz
    } else {
        sz
    };
    read_ue(d, p, f.id, ue(f.chroma) + ch);
    let p0 = sps::after_ue(d, p);
    read_ue(d, p0, f.chroma, ch);
    let c = sps::after_ue(d, p0);
    let p1 = if f.chroma == 3 {
        read_bit(d, c, f.separate, sz);
        c + 1
    } else {
        c
    };
    read_ues(d, p1, f.size, wb);
    let w = sps::after_ues(d, p1, 2);
    let p2 = match f.window {
        Some(x) => {
            read_bit(d, w, true, ues(x) + de);
            read_ues(d, w + 1, x, de);
            sps::after_ues(d, w + 1, 4)
        },
        None => {
            read_bit(d, w, false, de);
            w + 1
        },
    };
    read_ues(d, p2, f.depths, ob);
    let o = sps::after_ues(d, p2, 3);
    read_bit(d, o, f.all_ordered, ues(f.ordering) + cb);
    read_ues(d, o + 1, f.ordering, cb);
}

/// The range that is found from the position of the block sizes.
spec fn range_at(d: Seq<u8>, p: int) -> VideoRange {
    let s = sps::after_ues(d, p, 6);
    let m = sps::ahead(d, sps::ahead(d, s, 1), 2);
    let m2 = if sps::bit(d, m) == 1 {
        sps::ahead(
            d,
            sps::after_ues(d, sps::ahead(d, sps::ahead(d, m, 1), 8), 2),
            1,
        )
    } else {
        sps::ahead(d, m, 1)
    };
    let l = sps::after_ue(d, m2);
    if sps::bit(d, s) == 1 || 0 < sps::ue_value(d, m2) < 65 {
        VideoRange::Sdr
    } else {
        let l1 = sps::ahead(d, l, 1);
        let l2 = if sps::bit(d, l) == 1 {
            sps::after_ue_bits(d, sps::after_ue(d, l1), sps::ue_value(d, l1) as nat)
        } else {
            l1
        };
        sps::vui_range(d, sps::ahead(d, l2, 2))
    }
}

proof fn lemma_hevc_coding(
    d: Seq<u8>,
    p: int,
    f: HevcFields,
    u: Usability,
    rest: Seq<bool>,
)
    requires
        f.wf(),
        u.wf(),
        carries(d, p, f.coding_bits(u.bits() + rest)),
    ensures
        range_at(d, p) == u.range(),
{
    reveal(HevcFields::coding_bits);
    let ub = u.bits() + rest;
    let pr = f.prediction + ub;
    let lo = f.long_bits(ub);
    let st = ue(0) + lo;
    let pc = f.pcm_bits(st);
    let mo = f.motion + pc;
    read_ues(d, p, f.blocks, seq![false] + mo);
    let s = sps::after_ues(d, p, 6);
    read_bit(d, s, false, mo);
    read_bits(d, s + 1, f.motion, pc);
    let m = s + 3;
    let m2 = match f.pcm {
        Some((a, b, x)) => {
            let r = ues(b) + (seq![x] + st);
            read_bit(d, m, true, a + r);
            read_bits(d, m + 1, a, r);
            read_ues(d, m + 9, b, seq![x] + st);
            let e = sps::after_ues(d, m + 9, 2);
            read_bit(d, e, x, st);
            e + 1
        },
        None => {
            read_bit(d, m, false, st);
            m + 1
        },
    };
    assert(carries(d, m2, st));
    read_ue(d, m2, 0, lo);
    let l = sps::after_ue(d, m2);
    let l2 = match f.long_term {
        Some(x) => {
            let r = flagged(x) + pr;
            read_bit(d, l, true, ue(x.len()) + r);
            read_ue(d, l + 1, x.len(), r);
            let q = sps::after_ue(d, l + 1);
            read_flagged(d, q, x, pr);
            sps::after_ue_bits(d, q, x.len())
        },
        None => {
            read_bit(d, l, false, pr);
            l + 1
        },
    };
    assert(carries(d, l2, pr));
    read_bits(d, l2, f.prediction, ub);
    law_usability_states_range(d, l2 + 2, u, rest);
}

/// An HEVC sequence parameter set without a scaling list and short-term reference sets gives the
/// range that its usability information means, whatever its other fields state.
pub proof fn law_hevc_parameters_state_range(
    d: Seq<u8>,
    f: HevcFields,
    u: Usability,
    rest: Seq<bool>,
)
    requires
        f.wf(),
        u.wf(),
        carries(d, 0, f.bits(u.bits() + rest)),
    ensures
        sps::hevc_range(d) == u.range(),
{
    let p = lemma_layers(d, f, u.bits() + rest);
    lemma_hevc_picture(d, p, f, u.bits() + rest);
    lemma_hevc_coding(d, coding_at(d, p, f.layers.len()), f, u, rest);
}

/// The payload of a parameter set stands behind a header of one byte in H.264 and of two in HEVC,
/// with emulation prevention.
pub proof fn law_payload_stands_behind_header(a: u8, b: u8, d: Seq<u8>)
    requires
        escaped(d, 0, 0).len() >= 3,
    ensures
        sps::h264_sps(seq![a] + escaped(d, 0, 0)) == Some(sps::h264_range(d)),
        sps::hevc_sps(seq![a, b] + escaped(d, 0, 0)) == Some(sps::hevc_range(d)),
{
    let e = escaped(d, 0, 0);
    law_emulation_prevention_is_undone(d);
    assert((seq![a] + e).skip(1) =~= e);
    assert((seq![a, b] + e).skip(2) =~= e);
}

} // verus!
