//! PES packets: elementary stream bytes behind a header with their timestamps.

use vstd::prelude::*;

use crate::wire;

verus! {

/// A 33-bit timestamp in five bytes with marker bits, behind the four bits `prefix`.
pub open spec fn timestamp(prefix: int, ts: int) -> Seq<u8> {
    let t = ts % 0x2_0000_0000;
    seq![
        (prefix * 16 + t / 0x4000_0000 * 2 + 1) as u8,
        (t / 0x40_0000 % 256) as u8,
        (t / 0x8000 % 128 * 2 + 1) as u8,
        (t / 0x80 % 256) as u8,
        (t % 128 * 2 + 1) as u8,
    ]
}

/// The timestamp that five bytes of `d` at `p` state.
pub open spec fn timestamp_at(d: Seq<u8>, p: int) -> int {
    d[p] as int / 2 % 8 * 0x4000_0000 + d[p + 1] * 0x40_0000 + d[p + 2] as int / 2 * 0x8000 + d[p
        + 3] * 0x80 + d[p + 4] as int / 2
}

/// The optional header: aligned data, with a PTS and, where it is given, a DTS.
pub open spec fn pes_header(pts: int, dts: Option<u64>) -> Seq<u8> {
    match dts {
        Some(d) => seq![0x84u8, 0xC0u8, 10u8] + timestamp(3, pts) + timestamp(1, d as int),
        None => seq![0x84u8, 0x80u8, 5u8] + timestamp(2, pts),
    }
}

/// The length field: video of any length has none, else it saturates.
pub open spec fn pes_length(stream_id: u8, n: int) -> int {
    if 0xE0 <= stream_id <= 0xEF {
        0
    } else if n > 0xFFFF {
        0xFFFF
    } else {
        n
    }
}

/// A whole PES packet.
pub open spec fn pes_packet(stream_id: u8, pts: int, dts: Option<u64>, payload: Seq<u8>) -> Seq<
    u8,
> {
    let hdr = pes_header(pts, dts);
    seq![0u8, 0u8, 1u8, stream_id] + wire::be16_bytes(
        pes_length(stream_id, (hdr.len() + payload.len()) as int),
    ) + hdr + payload
}

/// A timestamp is read back from the bytes it was written to.
pub proof fn law_timestamp_round_trip(prefix: int, ts: int)
    requires
        0 <= prefix < 16,
    ensures
        timestamp_at(timestamp(prefix, ts), 0) == ts % 0x2_0000_0000,
        timestamp(prefix, ts)[0] as int / 16 == prefix,
{
    let t = ts % 0x2_0000_0000;
    let b = timestamp(prefix, ts);
    assert(b[0] as int / 2 % 8 == t / 0x4000_0000);
    assert(b[2] as int / 2 == t / 0x8000 % 128);
    assert(b[4] as int / 2 == t % 128);
    assert(t == t / 0x4000_0000 * 0x4000_0000 + t / 0x40_0000 % 256 * 0x40_0000 + t / 0x8000 % 128
        * 0x8000 + t / 0x80 % 256 * 0x80 + t % 128) by {
        assert(t / 0x80 == t / 0x8000 * 256 + t / 0x80 % 256);
        assert(t / 0x8000 == t / 0x40_0000 * 128 + t / 0x8000 % 128);
        assert(t / 0x40_0000 == t / 0x4000_0000 * 256 + t / 0x40_0000 % 256);
    }
}

/// The payload and the timestamps are read back from a PES packet.
pub proof fn law_pes_round_trip(stream_id: u8, pts: u64, dts: Option<u64>, payload: Seq<u8>)
    ensures
        ({
            let p = pes_packet(stream_id, pts as int, dts, payload);
            &&& p.skip(9 + p[8]) == payload
            &&& timestamp_at(p, 9) == pts as int % 0x2_0000_0000
            &&& dts matches Some(d) ==> timestamp_at(p, 14) == d as int % 0x2_0000_0000
        }),
{
    let p = pes_packet(stream_id, pts as int, dts, payload);
    assert(p.skip(9 + p[8]) =~= payload);
    let first = match dts {
        Some(d) => 3int,
        None => 2int,
    };
    law_timestamp_round_trip(first, pts as int);
    let a = timestamp(first, pts as int);
    assert(forall|i: int| 0 <= i < 5 ==> p[9 + i] == a[i]);
    assert(timestamp_at(p, 9) == timestamp_at(a, 0)) by {
        assert(p[9] == a[0] && p[10] == a[1] && p[11] == a[2] && p[12] == a[3] && p[13] == a[4]);
    }
    if let Some(d) = dts {
        law_timestamp_round_trip(1, d as int);
        let b = timestamp(1, d as int);
        assert(timestamp_at(p, 14) == timestamp_at(b, 0)) by {
            assert(p[14] == b[0] && p[15] == b[1] && p[16] == b[2] && p[17] == b[3] && p[18]
                == b[4]);
        }
    }
}

fn push_timestamp(out: &mut Vec<u8>, prefix: u8, ts: u64)
    requires
        prefix < 16,
    ensures
        final(out)@ == old(out)@ + timestamp(prefix as int, ts as int),
{
    let t: u64 = ts % 0x2_0000_0000;
    out.push(prefix * 16 + (t / 0x4000_0000) as u8 * 2 + 1);
    out.push((t / 0x40_0000 % 256) as u8);
    out.push((t / 0x8000 % 128) as u8 * 2 + 1);
    out.push((t / 0x80 % 256) as u8);
    out.push((t % 128) as u8 * 2 + 1);
    assert(out@ =~= old(out)@ + timestamp(prefix as int, ts as int));
}

/// Writes a PES packet; without `dts90` it states the PTS alone.
pub fn build_pes(stream_id: u8, pts90: u64, dts90: Option<u64>, payload: &[u8]) -> (r: Vec<u8>)
    ensures
        r@ == pes_packet(stream_id, pts90 as int, dts90, payload@),
        r@.len() > 0,
{
    let mut hdr: Vec<u8> = Vec::new();
    hdr.push(0x84);
    match dts90 {
        Some(dts) => {
            hdr.push(0xC0);
            hdr.push(10);
            assert(hdr@ =~= seq![0x84u8, 0xC0u8, 10u8]);
            push_timestamp(&mut hdr, 3, pts90);
            push_timestamp(&mut hdr, 1, dts);
        },
        None => {
            hdr.push(0x80);
            hdr.push(5);
            assert(hdr@ =~= seq![0x84u8, 0x80u8, 5u8]);
            push_timestamp(&mut hdr, 2, pts90);
        },
    }
    assert(hdr@ == pes_header(pts90 as int, dts90));
    let length: u16 = if stream_id >= 0xE0 && stream_id <= 0xEF {
        0
    } else if payload.len() > 0xFFFF - hdr.len() {
        0xFFFF
    } else {
        (hdr.len() + payload.len()) as u16
    };
    let mut out: Vec<u8> = Vec::new();
    out.push(0x00);
    out.push(0x00);
    out.push(0x01);
    out.push(stream_id);
    assert(out@ =~= seq![0u8, 0u8, 1u8, stream_id]);
    wire::push_be16(&mut out, length);
    wire::append(&mut out, hdr.as_slice());
    wire::append(&mut out, payload);
    out
}

} // verus!
