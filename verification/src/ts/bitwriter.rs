//! A big-endian bit writer for descriptors and PES headers.

use vstd::prelude::*;

verus! {

/// The number that `n` bits of `bits`, starting at `from`, spell. Bits past the end count as 0.
pub open spec fn bits_value(bits: Seq<bool>, from: int, n: nat) -> nat
    decreases n,
{
    if n == 0 {
        0
    } else {
        2 * bits_value(bits, from, (n - 1) as nat) + bit_value(bits, from + n - 1)
    }
}

/// The bit at `i` as a number, 0 past the end.
pub open spec fn bit_value(bits: Seq<bool>, i: int) -> nat {
    if 0 <= i < bits.len() && bits[i] {
        1
    } else {
        0
    }
}

/// The low `n` bits of `v`, most significant first.
pub open spec fn bits_of(v: u32, n: nat) -> Seq<bool> {
    Seq::new(n, |k: int| (v >> ((n - 1 - k) as u32)) & 1 == 1)
}

/// The bytes that hold `bits`, most significant bit first, with zeros behind the last bit.
pub open spec fn pack_bits(bits: Seq<bool>) -> Seq<u8> {
    Seq::new((bits.len() + 7) / 8, |i: int| bits_value(bits, 8 * i, 8) as u8)
}

/// Bit `i` of a byte sequence, most significant bit of the first byte first.
pub open spec fn bit_at(d: Seq<u8>, i: int) -> bool {
    (d[i / 8] >> ((7 - i % 8) as u8)) & 1 == 1
}

proof fn lemma_bits_value_bound(bits: Seq<bool>, from: int, n: nat)
    requires
        n <= 8,
    ensures
        bits_value(bits, from, n) < vstd::arithmetic::power2::pow2(n),
    decreases n,
{
    vstd::arithmetic::power2::lemma2_to64();
    if n > 0 {
        lemma_bits_value_bound(bits, from, (n - 1) as nat);
        vstd::arithmetic::power2::lemma_pow2_unfold(n);
    }
}

proof fn lemma_bits_value_same(a: Seq<bool>, b: Seq<bool>, from: int, n: nat)
    requires
        forall|i: int| from <= i < from + n ==> bit_value(a, i) == #[trigger] bit_value(b, i),
    ensures
        bits_value(a, from, n) == bits_value(b, from, n),
    decreases n,
{
    if n > 0 {
        lemma_bits_value_same(a, b, from, (n - 1) as nat);
        assert(bit_value(a, from + n - 1) == bit_value(b, from + n - 1));
    }
}

proof fn lemma_shift_in(cur: u8, bit: u8)
    by (bit_vector)
    requires
        cur < 128,
        bit < 2,
    ensures
        (cur << 1) | bit == 2 * cur + bit,
{
}

proof fn lemma_byte_bits(v: u8, a: u8, b: u8, c: u8, d: u8, e: u8, f: u8, g: u8, h: u8)
    by (bit_vector)
    requires
        a < 2,
        b < 2,
        c < 2,
        d < 2,
        e < 2,
        f < 2,
        g < 2,
        h < 2,
        v == 128 * a + 64 * b + 32 * c + 16 * d + 8 * e + 4 * f + 2 * g + h,
    ensures
        (v >> 7u8) & 1 == a,
        (v >> 6u8) & 1 == b,
        (v >> 5u8) & 1 == c,
        (v >> 4u8) & 1 == d,
        (v >> 3u8) & 1 == e,
        (v >> 2u8) & 1 == f,
        (v >> 1u8) & 1 == g,
        (v >> 0u8) & 1 == h,
{
}

/// The bits that were written are the bits that are read.
pub proof fn law_packed_bits_are_read_back(bits: Seq<bool>, i: int)
    requires
        0 <= i < bits.len(),
    ensures
        i / 8 < pack_bits(bits).len(),
        bit_at(pack_bits(bits), i) == bits[i],
{
    let from = 8 * (i / 8);
    let v = pack_bits(bits)[i / 8];
    reveal_with_fuel(bits_value, 9);
    lemma_bits_value_bound(bits, from, 8);
    vstd::arithmetic::power2::lemma2_to64();
    let b = |k: int| bit_value(bits, from + k) as u8;
    assert(v == 128 * b(0) + 64 * b(1) + 32 * b(2) + 16 * b(3) + 8 * b(4) + 4 * b(5) + 2 * b(6) + b(
        7,
    ));
    lemma_byte_bits(v, b(0), b(1), b(2), b(3), b(4), b(5), b(6), b(7));
    let k = i % 8;
    assert(k == 0 || k == 1 || k == 2 || k == 3 || k == 4 || k == 5 || k == 6 || k == 7);
    assert(i == from + k);
}

/// Bits written so far, in whole bytes and one byte that is still filling up.
pub struct BitWriter {
    buf: Vec<u8>,
    cur: u8,
    nbits: u8,
    written: Ghost<Seq<bool>>,
}

impl View for BitWriter {
    type V = Seq<bool>;

    closed spec fn view(&self) -> Seq<bool> {
        self.written@
    }
}

impl BitWriter {
    #[verifier::type_invariant]
    spec fn inv(&self) -> bool {
        &&& self.nbits < 8
        &&& self@.len() == 8 * self.buf@.len() + self.nbits
        &&& self.cur == bits_value(self@, 8 * self.buf@.len() as int, self.nbits as nat)
        &&& forall|i: int|
            0 <= i < self.buf@.len() ==> self.buf@[i] == #[trigger] bits_value(self@, 8 * i, 8)
    }

    pub fn new() -> (r: Self)
        ensures
            r@ == Seq::<bool>::empty(),
    {
        BitWriter { buf: Vec::new(), cur: 0, nbits: 0, written: Ghost(Seq::empty()) }
    }

    /// Writes one bit.
    pub fn bit(&mut self, b: bool)
        ensures
            final(self)@ == old(self)@.push(b),
    {
        proof {
            use_type_invariant(&*self);
        }
        let ghost before = self@;
        let ghost after = before.push(b);
        let ghost from = 8 * self.buf@.len() as int;
        let one: u8 = if b {
            1
        } else {
            0
        };
        let mut taken: BitWriter = BitWriter::new();
        std::mem::swap(&mut taken, self);
        let BitWriter { mut buf, cur, nbits, written: _ } = taken;
        proof {
            lemma_bits_value_bound(before, from, nbits as nat);
            vstd::arithmetic::power2::lemma2_to64();
            vstd::arithmetic::power2::lemma_pow2_strictly_increases(nbits as nat, 8);
            if nbits < 7 {
                vstd::arithmetic::power2::lemma_pow2_strictly_increases(nbits as nat, 7);
            }
            lemma_shift_in(cur, one);
            lemma_bits_value_same(before, after, from, nbits as nat);
            assert forall|i: int| 0 <= i < buf@.len() implies buf@[i] == #[trigger] bits_value(
                after,
                8 * i,
                8,
            ) by {
                lemma_bits_value_same(before, after, 8 * i, 8);
            }
        }
        let grown: u8 = (cur << 1) | one;
        assert(grown == bits_value(after, from, (nbits + 1) as nat));
        if nbits == 7 {
            buf.push(grown);
            *self = BitWriter { buf, cur: 0, nbits: 0, written: Ghost(after) };
        } else {
            *self = BitWriter { buf, cur: grown, nbits: nbits + 1, written: Ghost(after) };
        }
    }

    /// Writes the low `count` bits of `val`, most significant first.
    pub fn bits(&mut self, val: u32, count: u8)
        requires
            count <= 32,
        ensures
            final(self)@ == old(self)@ + bits_of(val, count as nat),
    {
        let mut left: u8 = count;
        let ghost all = bits_of(val, count as nat);
        while left > 0
            invariant
                left <= count <= 32,
                all == bits_of(val, count as nat),
                self@ == old(self)@ + all.take(count - left),
            decreases left,
        {
            left = left - 1;
            let one: bool = (val >> (left as u32)) & 1 == 1;
            self.bit(one);
            assert(all.take(count - left) =~= all.take(count - left - 1).push(one));
        }
        assert(all.take(count as int) =~= all);
    }

    /// Writes a whole byte at a byte boundary.
    pub fn u8(&mut self, v: u8)
        requires
            old(self)@.len() % 8 == 0,
        ensures
            final(self)@ == old(self)@ + bits_of(v as u32, 8),
    {
        self.bits(v as u32, 8);
    }

    /// Fills up to the next byte boundary.
    pub fn align(&mut self, fill_bit: bool)
        ensures
            final(self)@ == old(self)@ + Seq::new(
                ((8 - old(self)@.len() % 8) % 8) as nat,
                |i: int| fill_bit,
            ),
    {
        let ghost before = self@;
        let ghost pad = Seq::new(((8 - before.len() % 8) % 8) as nat, |i: int| fill_bit);
        let mut done: bool = self.is_aligned();
        while !done
            invariant
                pad == Seq::new(((8 - before.len() % 8) % 8) as nat, |i: int| fill_bit),
                before.len() <= self@.len() <= before.len() + pad.len(),
                self@ == before + pad.take(self@.len() - before.len()),
                done == (self@.len() % 8 == 0),
            decreases before.len() + pad.len() - self@.len(),
        {
            let ghost n = self@.len() - before.len();
            self.bit(fill_bit);
            assert(pad.take(n + 1) =~= pad.take(n).push(fill_bit));
            done = self.is_aligned();
        }
        assert(pad.take(self@.len() - before.len()) =~= pad);
    }

    /// Whether the next bit starts a byte.
    pub fn is_aligned(&self) -> (r: bool)
        ensures
            r == (self@.len() % 8 == 0),
    {
        proof {
            use_type_invariant(self);
        }
        self.nbits == 0
    }

    /// How many whole bytes have been written.
    pub fn len(&self) -> (r: usize)
        ensures
            r == self@.len() / 8,
    {
        proof {
            use_type_invariant(self);
        }
        self.buf.len()
    }

    pub fn is_empty(&self) -> (r: bool)
        ensures
            r == (self@.len() == 0),
    {
        proof {
            use_type_invariant(self);
        }
        self.buf.len() == 0 && self.nbits == 0
    }

    /// The bytes written, with zeros behind the last bit.
    pub fn into_bytes(self) -> (r: Vec<u8>)
        ensures
            r@ == pack_bits(self@),
    {
        let mut w: BitWriter = self;
        let ghost bits = w@;
        w.align(false);
        proof {
            use_type_invariant(&w);
            assert forall|i: int| 0 <= i < w.buf@.len() implies w.buf@[i] == #[trigger] bits_value(
                bits,
                8 * i,
                8,
            ) by {
                lemma_bits_value_same(bits, w@, 8 * i, 8);
            }
        }
        let BitWriter { buf, cur: _, nbits: _, written: _ } = w;
        assert(buf@ =~= pack_bits(bits));
        buf
    }
}

} // verus!
