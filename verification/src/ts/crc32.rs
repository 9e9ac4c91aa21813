//! The CRC-32 of MPEG-2 systems, which closes PAT and PMT sections.

use vstd::prelude::*;

use crate::wire;

verus! {

const POLY: u32 = 0x04C1_1DB7;

/// One step of the division by the generator polynomial.
pub open spec fn crc_shift(crc: u32) -> u32 {
    if crc & 0x8000_0000 != 0 {
        (crc << 1) ^ 0x04C1_1DB7
    } else {
        crc << 1
    }
}

/// `n` steps of the division by the generator polynomial.
pub open spec fn crc_shifts(crc: u32, n: nat) -> u32
    decreases n,
{
    if n == 0 {
        crc
    } else {
        crc_shift(crc_shifts(crc, (n - 1) as nat))
    }
}

/// The remainder after one more byte.
pub open spec fn crc_byte(crc: u32, b: u8) -> u32 {
    crc_shifts(crc ^ ((b as u32) << 24), 8)
}

/// The CRC of a byte sequence: the register starts with ones, bytes enter at the top.
pub open spec fn crc_of(d: Seq<u8>) -> u32
    decreases d.len(),
{
    if d.len() == 0 {
        0xFFFF_FFFF
    } else {
        crc_byte(crc_of(d.drop_last()), d.last())
    }
}

/// The CRC of `data`.
pub fn mpeg_crc32(data: &[u8]) -> (r: u32)
    ensures
        r == crc_of(data@),
{
    let mut crc: u32 = 0xFFFF_FFFF;
    for i in 0..data.len()
        invariant
            crc == crc_of(data@.take(i as int)),
    {
        assert(data@.take(i as int + 1).drop_last() =~= data@.take(i as int));
        crc = crc ^ ((data[i] as u32) << 24);
        let ghost start = crc;
        for k in 0..8u32
            invariant
                crc == crc_shifts(start, k as nat),
        {
            crc = if crc & 0x8000_0000 != 0 {
                (crc << 1) ^ POLY
            } else {
                crc << 1
            };
        }
    }
    assert(data@.take(data@.len() as int) =~= data@);
    crc
}

proof fn lemma_top_byte_cancels(c: u32)
    by (bit_vector)
    ensures
        (c ^ ((((c >> 24) as u8) as u32) << 24)) == c & 0x00FF_FFFF,
        c & 0x00FF_FFFF & 0x8000_0000 == 0,
        ((c & 0x00FF_FFFF) << 1) & 0x8000_0000 == 0,
        ((c & 0x00FF_FFFF) << 1 << 1) & 0x8000_0000 == 0,
        ((c & 0x00FF_FFFF) << 1 << 1 << 1) & 0x8000_0000 == 0,
        ((c & 0x00FF_FFFF) << 1 << 1 << 1 << 1) & 0x8000_0000 == 0,
        ((c & 0x00FF_FFFF) << 1 << 1 << 1 << 1 << 1) & 0x8000_0000 == 0,
        ((c & 0x00FF_FFFF) << 1 << 1 << 1 << 1 << 1 << 1) & 0x8000_0000 == 0,
        ((c & 0x00FF_FFFF) << 1 << 1 << 1 << 1 << 1 << 1 << 1) & 0x8000_0000 == 0,
        (c & 0x00FF_FFFF) << 1 << 1 << 1 << 1 << 1 << 1 << 1 << 1 == c << 8,
{
}

proof fn lemma_own_top_byte(c: u32)
    ensures
        crc_byte(c, (c >> 24) as u8) == c << 8,
{
    lemma_top_byte_cancels(c);
    reveal_with_fuel(crc_shifts, 9);
}

proof fn lemma_bytes_of_word(c: u32)
    by (bit_vector)
    ensures
        c >> 24 == c / 0x100_0000u32 % 0x100u32,
        (c << 8) >> 24 == c / 0x1_0000u32 % 0x100u32,
        (c << 8 << 8) >> 24 == c / 0x100u32 % 0x100u32,
        (c << 8 << 8 << 8) >> 24 == c % 0x100u32,
        c << 8 << 8 << 8 << 8 == 0,
{
}

/// A sequence that ends in its own CRC has the CRC 0, which is how a receiver checks it.
pub proof fn law_crc_of_checked_sequence_is_zero(d: Seq<u8>)
    ensures
        crc_of(d + wire::be32_bytes(crc_of(d) as int)) == 0,
{
    let c = crc_of(d);
    let b = wire::be32_bytes(c as int);
    lemma_bytes_of_word(c);
    lemma_own_top_byte(c);
    lemma_own_top_byte(c << 8);
    lemma_own_top_byte(c << 8 << 8);
    lemma_own_top_byte(c << 8 << 8 << 8);
    let d1 = d.push(b[0]);
    let d2 = d1.push(b[1]);
    let d3 = d2.push(b[2]);
    let d4 = d3.push(b[3]);
    assert(b[0] == (c >> 24) as u8 && b[1] == ((c << 8) >> 24) as u8);
    assert(b[2] == ((c << 8 << 8) >> 24) as u8 && b[3] == ((c << 8 << 8 << 8) >> 24) as u8);
    assert(d1.drop_last() =~= d);
    assert(d2.drop_last() =~= d1);
    assert(d3.drop_last() =~= d2);
    assert(d4.drop_last() =~= d3);
    assert(crc_of(d1) == c << 8);
    assert(crc_of(d2) == c << 8 << 8);
    assert(crc_of(d3) == c << 8 << 8 << 8);
    assert(d + b =~= d4);
}

} // verus!
