//! The transfer characteristics in the VUI of a sequence parameter set, which tell SDR, PQ and
//! HLG apart.
//!
//! Parsing stops at the colour description. Where a scaling list or short-term reference sets
//! stand before it, the range is taken for SDR.

use vstd::prelude::*;

use crate::ts::bitwriter;
use crate::ts::VideoRange;

verus! {

/// The bytes of a NAL unit from `i` on without emulation prevention: a 3 behind two zeros and
/// before a byte up to 3 is left out. `zeros` bytes of 0 stand before `i`.
pub open spec fn unescaped(d: Seq<u8>, i: int, zeros: int) -> Seq<u8>
    decreases d.len() - i,
{
    if i < 0 || i >= d.len() {
        Seq::empty()
    } else if zeros >= 2 && d[i] == 3 && i + 1 < d.len() && d[i + 1] <= 3 {
        unescaped(d, i + 1, 0)
    } else {
        seq![d[i]] + unescaped(
            d,
            i + 1,
            if d[i] == 0 {
                zeros + 1
            } else {
                0
            },
        )
    }
}

/// Bit `p` as a number, 0 past the end.
pub open spec fn bit(d: Seq<u8>, p: int) -> nat {
    if 0 <= p < 8 * d.len() && bitwriter::bit_at(d, p) {
        1
    } else {
        0
    }
}

/// `n` bits from `p` on as a number.
pub open spec fn value(d: Seq<u8>, p: int, n: nat) -> nat
    decreases n,
{
    if n == 0 {
        0
    } else {
        2 * value(d, p, (n - 1) as nat) + bit(d, p + n - 1)
    }
}

/// The position `n` bits behind `p`; it does not go past the end.
pub open spec fn ahead(d: Seq<u8>, p: int, n: int) -> int {
    if p + n <= 8 * d.len() {
        p + n
    } else {
        8 * d.len() as int
    }
}

/// How many of the next `k` bits are 0 before the first 1.
pub open spec fn zeros_from(d: Seq<u8>, p: int, k: nat) -> nat
    decreases k,
{
    if k == 0 || bit(d, p) == 1 {
        0
    } else {
        1 + zeros_from(d, p + 1, (k - 1) as nat)
    }
}

/// Where an Exp-Golomb code at `p` ends.
pub open spec fn after_ue(d: Seq<u8>, p: int) -> int {
    ahead(d, p, 2 * zeros_from(d, p, 32) as int + 1)
}

/// The number that an Exp-Golomb code at `p` states. Behind 32 zeros it is the next 32 bits.
pub open spec fn ue_value(d: Seq<u8>, p: int) -> int {
    let z = zeros_from(d, p, 32);
    if z < 32 {
        vstd::arithmetic::power2::pow2(z) - 1 + value(d, ahead(d, p, z as int + 1), z)
    } else {
        value(d, ahead(d, p, 33), 32) as int
    }
}

/// Where `n` Exp-Golomb codes end.
pub open spec fn after_ues(d: Seq<u8>, p: int, n: nat) -> int
    decreases n,
{
    if n == 0 {
        p
    } else {
        after_ue(d, after_ues(d, p, (n - 1) as nat))
    }
}

/// Where `n` pairs of an Exp-Golomb code and a bit end.
pub open spec fn after_ue_bits(d: Seq<u8>, p: int, n: nat) -> int
    decreases n,
{
    if n == 0 {
        p
    } else {
        ahead(d, after_ue(d, after_ue_bits(d, p, (n - 1) as nat)), 1)
    }
}

/// `p`, or `n` bits further where a flag is set.
pub open spec fn ahead_if(d: Seq<u8>, p: int, set: bool, n: int) -> int {
    if set {
        ahead(d, p, n)
    } else {
        p
    }
}

/// What transfer characteristics mean: 16 is PQ, 18 is HLG.
pub open spec fn range_of(tc: nat) -> VideoRange {
    if tc == 16 {
        VideoRange::Pq
    } else if tc == 18 {
        VideoRange::Hlg
    } else {
        VideoRange::Sdr
    }
}

/// The range that VUI parameters behind their presence flag at `p` state.
pub open spec fn vui_range(d: Seq<u8>, p: int) -> VideoRange {
    if bit(d, p) == 0 {
        VideoRange::Sdr
    } else {
        let a = ahead(d, p, 1);
        let a1 = ahead(d, a, 1);
        let a2 = if bit(d, a) == 1 {
            ahead_if(d, ahead(d, a1, 8), value(d, a1, 8) == 255, 32)
        } else {
            a1
        };
        let s = ahead_if(d, ahead(d, a2, 1), bit(d, a2) == 1, 1);
        let c = ahead(d, s, 5);
        if bit(d, s) == 1 && bit(d, c) == 1 {
            range_of(value(d, ahead(d, c, 9), 8))
        } else {
            VideoRange::Sdr
        }
    }
}

/// Whether an H.264 profile carries chroma information.
pub open spec fn has_chroma_info(profile: nat) -> bool {
    profile == 100 || profile == 110 || profile == 122 || profile == 244 || profile == 44 || profile
        == 83 || profile == 86 || profile == 118 || profile == 128 || profile == 138 || profile
        == 139 || profile == 134 || profile == 135
}

/// The range that the payload of an H.264 sequence parameter set states.
pub open spec fn h264_range(d: Seq<u8>) -> VideoRange {
    let p0 = after_ue(d, ahead(d, 0, 24));
    let chroma = has_chroma_info(value(d, 0, 8));
    let q = ahead_if(d, after_ue(d, p0), ue_value(d, p0) == 3, 1);
    let q2 = ahead(d, after_ues(d, q, 2), 1);
    if chroma && bit(d, q2) == 1 {
        VideoRange::Sdr
    } else {
        let p1 = after_ue(
            d,
            if chroma {
                ahead(d, q2, 1)
            } else {
                p0
            },
        );
        let poc = ue_value(d, p1);
        let p2 = after_ue(d, p1);
        let p3 = if poc == 0 {
            after_ue(d, p2)
        } else if poc == 1 {
            let n = after_ues(d, ahead(d, p2, 1), 2);
            after_ues(d, after_ue(d, n), ue_value(d, n) as nat)
        } else {
            p2
        };
        let p4 = after_ues(d, ahead(d, after_ue(d, p3), 1), 2);
        let p5 = ahead(d, ahead_if(d, ahead(d, p4, 1), bit(d, p4) == 0, 1), 1);
        let p6 = if bit(d, p5) == 1 {
            after_ues(d, ahead(d, p5, 1), 4)
        } else {
            ahead(d, p5, 1)
        };
        vui_range(d, p6)
    }
}

/// Where the profiles and levels of the sub-layers from `i` on end; the flags of sub-layer `j`
/// stand at `flags + 2 * j`.
pub open spec fn after_sub_layers(d: Seq<u8>, flags: int, p: int, i: nat, n: nat) -> int
    decreases n - i,
{
    if i >= n {
        p
    } else {
        let q = ahead_if(d, p, bit(d, flags + 2 * i) == 1, 88);
        after_sub_layers(
            d,
            flags,
            ahead_if(d, q, bit(d, flags + 2 * i + 1) == 1, 8),
            i + 1,
            n,
        )
    }
}

/// Where the profile, tier and level of `n` sub-layers end.
pub open spec fn after_ptl(d: Seq<u8>, p: int, n: nat) -> int {
    let flags = ahead(d, p, 96);
    if n == 0 {
        flags
    } else {
        after_sub_layers(d, flags, ahead(d, flags, 16), 0, n)
    }
}

/// The range that the payload of an HEVC sequence parameter set states.
pub open spec fn hevc_range(d: Seq<u8>) -> VideoRange {
    let n = value(d, ahead(d, 0, 4), 3);
    let p0 = after_ue(d, after_ptl(d, ahead(d, 0, 8), n));
    let p1 = ahead_if(d, after_ue(d, p0), ue_value(d, p0) == 3, 1);
    let w = after_ues(d, p1, 2);
    let p2 = if bit(d, w) == 1 {
        after_ues(d, ahead(d, w, 1), 4)
    } else {
        ahead(d, w, 1)
    };
    let o = after_ues(d, p2, 3);
    let layers: nat = if bit(d, o) == 1 {
        n + 1
    } else {
        1
    };
    let s = after_ues(d, after_ues(d, ahead(d, o, 1), 3 * layers), 6);
    let m = ahead(d, ahead(d, s, 1), 2);
    let m2 = if bit(d, m) == 1 {
        ahead(d, after_ues(d, ahead(d, ahead(d, m, 1), 8), 2), 1)
    } else {
        ahead(d, m, 1)
    };
    let l = after_ue(d, m2);
    if bit(d, s) == 1 || 0 < ue_value(d, m2) < 65 {
        VideoRange::Sdr
    } else {
        let l1 = ahead(d, l, 1);
        let l2 = if bit(d, l) == 1 {
            after_ue_bits(d, after_ue(d, l1), ue_value(d, l1) as nat)
        } else {
            l1
        };
        vui_range(d, ahead(d, l2, 2))
    }
}

/// The range that an H.264 sequence parameter set with its header states.
pub open spec fn h264_sps(nal: Seq<u8>) -> Option<VideoRange> {
    if nal.len() < 4 {
        None
    } else {
        Some(h264_range(unescaped(nal.skip(1), 0, 0)))
    }
}

/// The range that an HEVC sequence parameter set with its header states.
pub open spec fn hevc_sps(nal: Seq<u8>) -> Option<VideoRange> {
    if nal.len() < 4 {
        None
    } else {
        Some(hevc_range(unescaped(nal.skip(2), 0, 0)))
    }
}

/// Removes emulation prevention.
pub fn unescape_rbsp(nal: &[u8]) -> (r: Vec<u8>)
    ensures
        r@ == unescaped(nal@, 0, 0),
{
    let n: usize = nal.len();
    let mut out: Vec<u8> = Vec::new();
    let mut zeros: usize = 0;
    let ghost all = unescaped(nal@, 0, 0);
    assert(out@ + all =~= all);
    let mut i: usize = 0;
    while i < n
        invariant
            n == nal@.len(),
            i <= n,
            zeros <= i,
            out@ + unescaped(nal@, i as int, zeros as int) == all,
        decreases n - i,
    {
        let b: u8 = nal[i];
        if zeros >= 2 && b == 3 && i + 1 < n && nal[i + 1] <= 3 {
            zeros = 0;
        } else {
            let ghost before = out@;
            let ghost z: int = if b == 0 {
                zeros + 1
            } else {
                0
            };
            out.push(b);
            proof {
                let rest = unescaped(nal@, i + 1, z);
                assert(out@ + rest =~= before + (seq![b] + rest));
            }
            if b == 0 {
                zeros = zeros + 1;
            } else {
                zeros = 0;
            }
        }
        i = i + 1;
    }
    assert(out@ =~= all);
    out
}

proof fn lemma_value_bound(d: Seq<u8>, p: int, n: nat)
    ensures
        value(d, p, n) < vstd::arithmetic::power2::pow2(n),
    decreases n,
{
    vstd::arithmetic::power2::lemma2_to64();
    if n > 0 {
        lemma_value_bound(d, p, (n - 1) as nat);
        vstd::arithmetic::power2::lemma_pow2_unfold(n);
    }
}

proof fn lemma_ahead_twice(d: Seq<u8>, p: int, a: int, b: int)
    requires
        0 <= p <= 8 * d.len(),
        0 <= a,
        0 <= b,
    ensures
        ahead(d, ahead(d, p, a), b) == ahead(d, p, a + b),
        0 <= ahead(d, p, a) <= 8 * d.len(),
        p <= ahead(d, p, a),
{
}

proof fn lemma_value_past_end(d: Seq<u8>, p: int, n: nat)
    requires
        p >= 8 * d.len(),
    ensures
        value(d, p, n) == 0,
    decreases n,
{
    if n > 0 {
        lemma_value_past_end(d, p, (n - 1) as nat);
    }
}

/// Bits of a byte sequence, most significant first. Past the end every bit is 0.
pub struct BitReader<'a> {
    data: &'a [u8],
    byte: usize,
    off: u8,
}

impl<'a> BitReader<'a> {
    /// The bytes that are read.
    pub closed spec fn bytes(&self) -> Seq<u8> {
        self.data@
    }

    /// The position, in bits.
    pub closed spec fn pos(&self) -> int {
        8 * self.byte + self.off
    }

    pub closed spec fn inv(&self) -> bool {
        &&& self.off < 8
        &&& self.byte <= self.data.len()
        &&& self.byte == self.data.len() ==> self.off == 0
    }

    /// The position is inside the bytes or at their end.
    pub open spec fn wf(&self) -> bool {
        &&& self.inv()
        &&& 0 <= self.pos() <= 8 * self.bytes().len()
    }

    pub fn new(d: &'a [u8]) -> (r: Self)
        ensures
            r.wf(),
            r.bytes() == d@,
            r.pos() == 0,
    {
        BitReader { data: d, byte: 0, off: 0 }
    }

    /// The next bit.
    pub fn u1(&mut self) -> (r: u32)
        requires
            old(self).wf(),
        ensures
            final(self).wf(),
            final(self).bytes() == old(self).bytes(),
            r == bit(old(self).bytes(), old(self).pos()),
            final(self).pos() == ahead(old(self).bytes(), old(self).pos(), 1),
    {
        if self.byte >= self.data.len() {
            return 0;
        }
        let b: bool = (self.data[self.byte] >> (7 - self.off)) & 1 == 1;
        assert(self.pos() / 8 == self.byte && self.pos() % 8 == self.off);
        if self.off == 7 {
            self.off = 0;
            self.byte = self.byte + 1;
        } else {
            self.off = self.off + 1;
        }
        if b {
            1
        } else {
            0
        }
    }

    /// The next `n` bits as a number.
    pub fn u(&mut self, n: u32) -> (r: u32)
        requires
            old(self).wf(),
            n <= 32,
        ensures
            final(self).wf(),
            final(self).bytes() == old(self).bytes(),
            r == value(old(self).bytes(), old(self).pos(), n as nat),
            final(self).pos() == ahead(old(self).bytes(), old(self).pos(), n as int),
    {
        let ghost d = self.bytes();
        let ghost p = self.pos();
        let mut v: u32 = 0;
        let mut k: u32 = 0;
        while k < n
            invariant
                k <= n <= 32,
                self.wf(),
                self.bytes() == d,
                0 <= p <= 8 * d.len(),
                v == value(d, p, k as nat),
                self.pos() == ahead(d, p, k as int),
            decreases n - k,
        {
            proof {
                lemma_value_bound(d, p, k as nat);
                lemma_ahead_twice(d, p, k as int, 1);
                vstd::arithmetic::power2::lemma2_to64();
                if k < 31 {
                    vstd::arithmetic::power2::lemma_pow2_strictly_increases(k as nat, 31);
                }
                assert(v < 0x8000_0000);
                assert(bit(d, self.pos()) == bit(d, p + k));
            }
            let one: u32 = self.u1();
            v = v * 2 + one;
            k = k + 1;
        }
        v
    }

    /// The next Exp-Golomb code.
    pub fn ue(&mut self) -> (r: u32)
        requires
            old(self).wf(),
        ensures
            final(self).wf(),
            final(self).bytes() == old(self).bytes(),
            r == ue_value(old(self).bytes(), old(self).pos()),
            final(self).pos() == after_ue(old(self).bytes(), old(self).pos()),
    {
        let ghost d = self.bytes();
        let ghost p = self.pos();
        let ghost z = zeros_from(d, p, 32);
        let mut zeros: u32 = 0;
        let mut last: u32 = self.u1();
        while last == 0 && zeros < 32
            invariant
                zeros <= 32,
                self.wf(),
                self.bytes() == d,
                0 <= p <= 8 * d.len(),
                z == zeros_from(d, p, 32),
                z == zeros + zeros_from(d, p + zeros, (32 - zeros) as nat),
                last == bit(d, p + zeros),
                self.pos() == ahead(d, p, zeros + 1),
            decreases 32 - zeros,
        {
            proof {
                lemma_ahead_twice(d, p, zeros + 1, 1);
                assert(bit(d, self.pos()) == bit(d, p + zeros + 1));
            }
            zeros = zeros + 1;
            last = self.u1();
        }
        assert(z == zeros);
        proof {
            lemma_ahead_twice(d, p, zeros + 1, zeros as int);
            lemma_value_bound(d, self.pos(), zeros as nat);
            vstd::arithmetic::power2::lemma2_to64();
        }
        if zeros == 0 {
            return 0;
        }
        let tail: u32 = self.u(zeros);
        if zeros == 32 {
            return tail;
        }
        proof {
            vstd::arithmetic::power2::lemma_pow2_strictly_increases(zeros as nat, 32);
            vstd::arithmetic::power2::lemma_pow2_unfold((zeros + 1) as nat);
            if zeros < 31 {
                vstd::arithmetic::power2::lemma_pow2_strictly_increases((zeros + 1) as nat, 32);
            }
        }
        pow2_u32(zeros) - 1 + tail
    }

    fn skip(&mut self, n: u32)
        requires
            old(self).wf(),
        ensures
            final(self).wf(),
            final(self).bytes() == old(self).bytes(),
            final(self).pos() == ahead(old(self).bytes(), old(self).pos(), n as int),
    {
        let ghost d = self.bytes();
        let ghost p = self.pos();
        let mut k: u32 = 0;
        while k < n
            invariant
                k <= n,
                self.wf(),
                self.bytes() == d,
                0 <= p <= 8 * d.len(),
                self.pos() == ahead(d, p, k as int),
            decreases n - k,
        {
            proof {
                lemma_ahead_twice(d, p, k as int, 1);
            }
            let _: u32 = self.u1();
            k = k + 1;
        }
    }

    fn skip_ues(&mut self, n: u32)
        requires
            old(self).wf(),
        ensures
            final(self).wf(),
            final(self).bytes() == old(self).bytes(),
            final(self).pos() == after_ues(old(self).bytes(), old(self).pos(), n as nat),
    {
        let ghost d = self.bytes();
        let ghost p = self.pos();
        let mut k: u32 = 0;
        while k < n
            invariant
                k <= n,
                self.wf(),
                self.bytes() == d,
                self.pos() == after_ues(d, p, k as nat),
            decreases n - k,
        {
            let _: u32 = self.ue();
            k = k + 1;
        }
    }

    fn skip_ue_bits(&mut self, n: u32)
        requires
            old(self).wf(),
        ensures
            final(self).wf(),
            final(self).bytes() == old(self).bytes(),
            final(self).pos() == after_ue_bits(old(self).bytes(), old(self).pos(), n as nat),
    {
        let ghost d = self.bytes();
        let ghost p = self.pos();
        let mut k: u32 = 0;
        while k < n
            invariant
                k <= n,
                self.wf(),
                self.bytes() == d,
                self.pos() == after_ue_bits(d, p, k as nat),
            decreases n - k,
        {
            let _: u32 = self.ue();
            let _: u32 = self.u1();
            k = k + 1;
        }
    }

    /// Reads VUI parameters behind their presence flag.
    fn vui(&mut self) -> (r: VideoRange)
        requires
            old(self).wf(),
        ensures
            r == vui_range(old(self).bytes(), old(self).pos()),
    {
        if self.u1() == 0 {
            return VideoRange::Sdr;
        }
        if self.u1() == 1 {
            if self.u(8) == 255 {
                self.skip(32);
            }
        }
        if self.u1() == 1 {
            self.skip(1);
        }
        let ghost d = self.bytes();
        let ghost s = self.pos();
        if self.u1() == 1 {
            self.skip(4);
            proof {
                lemma_ahead_twice(d, s, 1, 4);
            }
            if self.u1() == 1 {
                self.skip(8);
                proof {
                    lemma_ahead_twice(d, ahead(d, s, 5), 1, 8);
                }
                return tc_to_range(self.u(8));
            }
        }
        VideoRange::Sdr
    }
}

fn pow2_u32(n: u32) -> (r: u32)
    requires
        n < 32,
    ensures
        r == vstd::arithmetic::power2::pow2(n as nat),
{
    let mut v: u32 = 1;
    let mut k: u32 = 0;
    proof {
        vstd::arithmetic::power2::lemma2_to64();
    }
    while k < n
        invariant
            k <= n < 32,
            v == vstd::arithmetic::power2::pow2(k as nat),
        decreases n - k,
    {
        proof {
            vstd::arithmetic::power2::lemma_pow2_unfold((k + 1) as nat);
            vstd::arithmetic::power2::lemma2_to64();
            vstd::arithmetic::power2::lemma_pow2_strictly_increases(k as nat, 31);
        }
        v = v * 2;
        k = k + 1;
    }
    v
}

fn tc_to_range(tc: u32) -> (r: VideoRange)
    ensures
        r == range_of(tc as nat),
{
    if tc == 16 {
        VideoRange::Pq
    } else if tc == 18 {
        VideoRange::Hlg
    } else {
        VideoRange::Sdr
    }
}

fn carries_chroma_info(profile: u32) -> (r: bool)
    ensures
        r == has_chroma_info(profile as nat),
{
    profile == 100 || profile == 110 || profile == 122 || profile == 244 || profile == 44 || profile
        == 83 || profile == 86 || profile == 118 || profile == 128 || profile == 138 || profile
        == 139 || profile == 134 || profile == 135
}

/// The range that an H.264 sequence parameter set, with its header, states.
pub fn h264_sps_range(nal: &[u8]) -> (r: Option<VideoRange>)
    ensures
        r == h264_sps(nal@),
{
    if nal.len() < 4 {
        return None;
    }
    assert(nal@.subrange(1, nal@.len() as int) =~= nal@.skip(1));
    let rbsp: Vec<u8> = unescape_rbsp(vstd::slice::slice_subrange(nal, 1, nal.len()));
    let mut r: BitReader = BitReader::new(rbsp.as_slice());
    let ghost d = rbsp@;
    let profile_idc: u32 = r.u(8);
    r.skip(16);
    proof {
        lemma_ahead_twice(d, 0, 8, 16);
    }
    r.skip_ues(1);
    reveal_with_fuel(after_ues, 2);
    if carries_chroma_info(profile_idc) {
        if r.ue() == 3 {
            r.skip(1);
        }
        r.skip_ues(2);
        r.skip(1);
        if r.u1() == 1 {
            return Some(VideoRange::Sdr);
        }
    }
    r.skip_ues(1);
    let poc_type: u32 = r.ue();
    if poc_type == 0 {
        r.skip_ues(1);
    } else if poc_type == 1 {
        r.skip(1);
        r.skip_ues(2);
        let n: u32 = r.ue();
        r.skip_ues(n);
    }
    r.skip_ues(1);
    r.skip(1);
    r.skip_ues(2);
    if r.u1() == 0 {
        r.skip(1);
    }
    r.skip(1);
    if r.u1() == 1 {
        r.skip_ues(4);
    }
    Some(r.vui())
}

fn skip_ptl(r: &mut BitReader, sub_layers: u32)
    requires
        old(r).wf(),
        sub_layers <= 7,
    ensures
        final(r).wf(),
        final(r).bytes() == old(r).bytes(),
        final(r).pos() == after_ptl(old(r).bytes(), old(r).pos(), sub_layers as nat),
{
    let ghost d = r.bytes();
    r.skip(96);
    if sub_layers == 0 {
        return;
    }
    let ghost flags = r.pos();
    let mut profile_present: Vec<bool> = Vec::new();
    let mut level_present: Vec<bool> = Vec::new();
    let mut i: u32 = 0;
    while i < 8
        invariant
            i <= 8,
            r.wf(),
            r.bytes() == d,
            0 <= flags <= 8 * d.len(),
            r.pos() == ahead(d, flags, 2 * i),
            profile_present@.len() == i,
            level_present@.len() == i,
            forall|j: int|
                0 <= j < i ==> #[trigger] profile_present@[j] == (bit(d, flags + 2 * j) == 1),
            forall|j: int|
                0 <= j < i ==> #[trigger] level_present@[j] == (bit(d, flags + 2 * j + 1) == 1),
        decreases 8 - i,
    {
        proof {
            lemma_ahead_twice(d, flags, 2 * i, 1);
            lemma_ahead_twice(d, flags, 2 * i + 1, 1);
            assert(bit(d, r.pos()) == bit(d, flags + 2 * i));
            assert(bit(d, ahead(d, flags, 2 * i + 1)) == bit(d, flags + 2 * i + 1));
        }
        profile_present.push(r.u1() == 1);
        level_present.push(r.u1() == 1);
        i = i + 1;
    }
    let mut k: u32 = 0;
    let ghost all = after_sub_layers(d, flags, r.pos(), 0, sub_layers as nat);
    while k < sub_layers
        invariant
            k <= sub_layers <= 7,
            r.wf(),
            r.bytes() == d,
            profile_present@.len() == 8,
            level_present@.len() == 8,
            forall|j: int|
                0 <= j < 8 ==> #[trigger] profile_present@[j] == (bit(d, flags + 2 * j) == 1),
            forall|j: int|
                0 <= j < 8 ==> #[trigger] level_present@[j] == (bit(d, flags + 2 * j + 1) == 1),
            all == after_sub_layers(d, flags, r.pos(), k as nat, sub_layers as nat),
        decreases sub_layers - k,
    {
        if profile_present[k as usize] {
            r.skip(88);
        }
        if level_present[k as usize] {
            r.skip(8);
        }
        k = k + 1;
    }
}

/// The range that an HEVC sequence parameter set, with its header, states.
pub fn hevc_sps_range(nal: &[u8]) -> (r: Option<VideoRange>)
    ensures
        r == hevc_sps(nal@),
{
    if nal.len() < 4 {
        return None;
    }
    assert(nal@.subrange(2, nal@.len() as int) =~= nal@.skip(2));
    let rbsp: Vec<u8> = unescape_rbsp(vstd::slice::slice_subrange(nal, 2, nal.len()));
    let mut r: BitReader = BitReader::new(rbsp.as_slice());
    let ghost d = rbsp@;
    proof {
        lemma_ahead_twice(d, 0, 4, 3);
        lemma_ahead_twice(d, 0, 7, 1);
        lemma_value_bound(d, ahead(d, 0, 4), 3);
        vstd::arithmetic::power2::lemma2_to64();
        reveal_with_fuel(after_ues, 2);
    }
    r.skip(4);
    let sub_layers: u32 = r.u(3);
    r.skip(1);
    skip_ptl(&mut r, sub_layers);
    r.skip_ues(1);
    if r.ue() == 3 {
        r.skip(1);
    }
    r.skip_ues(2);
    if r.u1() == 1 {
        r.skip_ues(4);
    }
    r.skip_ues(3);
    let layers: u32 = if r.u1() == 1 {
        sub_layers + 1
    } else {
        1
    };
    r.skip_ues(3 * layers);
    r.skip_ues(6);
    if r.u1() == 1 {
        return Some(VideoRange::Sdr);
    }
    r.skip(2);
    if r.u1() == 1 {
        r.skip(8);
        r.skip_ues(2);
        r.skip(1);
    }
    let short_term: u32 = r.ue();
    if short_term > 0 && short_term < 65 {
        return Some(VideoRange::Sdr);
    }
    if r.u1() == 1 {
        let n: u32 = r.ue();
        r.skip_ue_bits(n);
    }
    r.skip(2);
    Some(r.vui())
}

} // verus!
