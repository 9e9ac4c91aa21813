//! Big-endian integers inside byte sequences.

use vstd::prelude::*;

verus! {

/// The unsigned 16-bit number that starts at `p`.
pub open spec fn be16_at(d: Seq<u8>, p: int) -> int {
    d[p] * 0x100 + d[p + 1]
}

/// The unsigned 32-bit number that starts at `p`.
pub open spec fn be32_at(d: Seq<u8>, p: int) -> int {
    d[p] * 0x100_0000 + d[p + 1] * 0x1_0000 + d[p + 2] * 0x100 + d[p + 3]
}

/// The unsigned 64-bit number that starts at `p`.
pub open spec fn be64_at(d: Seq<u8>, p: int) -> int {
    be32_at(d, p) * 0x1_0000_0000 + be32_at(d, p + 4)
}

/// The two's-complement reading of an unsigned 32-bit number.
pub open spec fn signed32(v: int) -> int {
    if v < 0x8000_0000 {
        v
    } else {
        v - 0x1_0000_0000
    }
}

/// The two bytes of `v`, most significant first.
pub open spec fn be16_bytes(v: int) -> Seq<u8> {
    seq![(v / 0x100 % 0x100) as u8, (v % 0x100) as u8]
}

/// The four bytes of `v`, most significant first.
pub open spec fn be32_bytes(v: int) -> Seq<u8> {
    seq![
        (v / 0x100_0000 % 0x100) as u8,
        (v / 0x1_0000 % 0x100) as u8,
        (v / 0x100 % 0x100) as u8,
        (v % 0x100) as u8,
    ]
}

/// A 16-bit number written with its most significant byte first is read back.
pub proof fn law_be16_round_trip(v: u16)
    ensures
        be16_at(be16_bytes(v as int), 0) == v,
{
}

/// A 32-bit number written with its most significant byte first is read back.
pub proof fn law_be32_round_trip(v: u32)
    ensures
        be32_at(be32_bytes(v as int), 0) == v,
{
    let v = v as int;
    assert(v / 0x100 == 0x100 * (v / 0x1_0000) + v / 0x100 % 0x100);
    assert(v / 0x1_0000 == 0x100 * (v / 0x100_0000) + v / 0x1_0000 % 0x100);
    assert(v / 0x100_0000 % 0x100 == v / 0x100_0000);
}

pub fn read_be16(d: &[u8], p: usize) -> (r: u16)
    requires
        p + 2 <= d.len(),
    ensures
        r == be16_at(d@, p as int),
{
    d[p] as u16 * 0x100 + d[p + 1] as u16
}

pub fn read_be32(d: &[u8], p: usize) -> (r: u32)
    requires
        p + 4 <= d.len(),
    ensures
        r == be32_at(d@, p as int),
{
    d[p] as u32 * 0x100_0000 + d[p + 1] as u32 * 0x1_0000 + d[p + 2] as u32 * 0x100 + d[p + 3] as u32
}

pub fn read_be64(d: &[u8], p: usize) -> (r: u64)
    requires
        p + 8 <= d.len(),
    ensures
        r == be64_at(d@, p as int),
{
    read_be32(d, p) as u64 * 0x1_0000_0000 + read_be32(d, p + 4) as u64
}

pub fn push_be16(out: &mut Vec<u8>, v: u16)
    ensures
        final(out)@ == old(out)@ + be16_bytes(v as int),
{
    out.push((v / 0x100) as u8);
    out.push((v % 0x100) as u8);
    assert(out@ =~= old(out)@ + be16_bytes(v as int));
}

pub fn push_be32(out: &mut Vec<u8>, v: u32)
    ensures
        final(out)@ == old(out)@ + be32_bytes(v as int),
{
    out.push((v / 0x100_0000) as u8);
    out.push((v / 0x1_0000 % 0x100) as u8);
    out.push((v / 0x100 % 0x100) as u8);
    out.push((v % 0x100) as u8);
    assert(out@ =~= old(out)@ + be32_bytes(v as int));
}

/// `v` as a two's-complement 32-bit number.
pub fn to_signed32(v: u32) -> (r: i32)
    ensures
        r == signed32(v as int),
{
    if v < 0x8000_0000 {
        v as i32
    } else {
        (v as i64 - 0x1_0000_0000) as i32
    }
}

/// Appends the bytes of `src`.
pub fn append(out: &mut Vec<u8>, src: &[u8])
    ensures
        final(out)@ == old(out)@ + src@,
{
    out.extend_from_slice(src);
    assert(out@ =~= old(out)@ + src@);
}

/// A copy of `src`.
pub fn copy(src: &[u8]) -> (r: Vec<u8>)
    ensures
        r@ == src@,
{
    let mut out: Vec<u8> = Vec::new();
    append(&mut out, src);
    assert(out@ =~= src@);
    out
}

/// Whether two byte sequences are equal.
pub fn same(a: &[u8], b: &[u8]) -> (r: bool)
    ensures
        r == (a@ == b@),
{
    if a.len() != b.len() {
        return false;
    }
    for i in 0..a.len()
        invariant
            a@.len() == b@.len(),
            forall|j: int| 0 <= j < i ==> a@[j] == b@[j],
    {
        if a[i] != b[i] {
            assert(a@[i as int] != b@[i as int]);
            return false;
        }
    }
    assert(a@ =~= b@);
    true
}

/// The byte sequences that a list of vectors holds.
pub open spec fn views(v: Seq<Vec<u8>>) -> Seq<Seq<u8>> {
    v.map_values(|x: Vec<u8>| x@)
}

/// Appends a copy of each byte sequence of `src`.
pub fn append_all(out: &mut Vec<Vec<u8>>, src: &[Vec<u8>])
    ensures
        views(final(out)@) == views(old(out)@) + views(src@),
{
    for i in 0..src.len()
        invariant
            views(out@) == views(old(out)@) + views(src@).take(i as int),
    {
        let one: Vec<u8> = copy(src[i].as_slice());
        let ghost before = out@;
        out.push(one);
        assert(views(out@) =~= views(before).push(one@));
        assert(views(src@).take(i as int + 1) =~= views(src@).take(i as int).push(one@));
    }
    assert(views(src@).take(src@.len() as int) =~= views(src@));
}

} // verus!
