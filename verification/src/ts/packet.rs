//! TS packets: sections and PES packets are cut into packets of 188 bytes, with adaptation
//! fields, the PCR, continuity counters and stuffing.

use std::collections::HashMap;

use vstd::prelude::*;

use super::{SYNC_BYTE, TS_PACKET_SIZE};
use crate::wire;

verus! {

broadcast use vstd::std_specs::hash::group_hash_axioms;

/// The counter of a PID; it starts at 0.
pub open spec fn counter(counters: Map<u16, u8>, pid: u16) -> int {
    if counters.dom().contains(pid) {
        counters[pid] as int
    } else {
        0
    }
}

/// The counters after `n` packets of a PID.
pub open spec fn advanced(counters: Map<u16, u8>, pid: u16, n: int) -> Map<u16, u8> {
    if n == 0 {
        counters
    } else {
        counters.insert(pid, ((counter(counters, pid) + n) % 16) as u8)
    }
}

/// The continuity counter of each PID.
pub struct ContinuityCounters {
    map: HashMap<u16, u8>,
}

impl View for ContinuityCounters {
    type V = Map<u16, u8>;

    closed spec fn view(&self) -> Map<u16, u8> {
        self.map@
    }
}

impl ContinuityCounters {
    /// Counters have four bits.
    pub open spec fn wf(&self) -> bool {
        forall|pid: u16| #[trigger] self@.dom().contains(pid) ==> self@[pid] < 16
    }

    pub fn new() -> (r: Self)
        ensures
            r@ == Map::<u16, u8>::empty(),
            r.wf(),
    {
        ContinuityCounters { map: HashMap::new() }
    }

    /// The counter of the next packet of `pid`.
    fn next(&mut self, pid: u16) -> (r: u8)
        requires
            old(self).wf(),
        ensures
            r == counter(old(self)@, pid),
            r < 16,
            final(self)@ == advanced(old(self)@, pid, 1),
            final(self).wf(),
    {
        let v: u8 = match self.map.get(&pid) {
            Some(n) => *n,
            None => 0,
        };
        assert(v < 16) by {
            assert(old(self)@.dom().contains(pid) ==> old(self)@[pid] < 16);
        }
        self.map.insert(pid, (v + 1) % 16);
        assert forall|q: u16| #[trigger] self@.dom().contains(q) implies self@[q] < 16 by {
            if q != pid {
                assert(old(self)@.dom().contains(q));
            }
        }
        v
    }
}

/// `n` bytes of stuffing.
pub open spec fn stuffing(n: int) -> Seq<u8> {
    Seq::new(n as nat, |i: int| 0xFFu8)
}

/// The header of a packet: `control` says what follows, 1 a payload, 3 an adaptation field and a
/// payload.
pub open spec fn packet_header(pid: u16, starts: bool, control: int, cc: int) -> Seq<u8> {
    let start: int = if starts {
        0x40
    } else {
        0
    };
    seq![
        0x47u8,
        (start + pid as int / 256 % 32) as u8,
        (pid as int % 256) as u8,
        (control * 16 + cc) as u8,
    ]
}

/// The only packet of a section, which is cut where it does not fit.
pub open spec fn section_packet(pid: u16, section: Seq<u8>, cc: int) -> Seq<u8> {
    let n: int = if section.len() < 183 {
        section.len() as int
    } else {
        183
    };
    packet_header(pid, true, 1, cc) + seq![0u8] + section.take(n) + stuffing(183 - n)
}

/// The 33 bits of the PCR in 90 kHz, with an extension of 0.
pub open spec fn pcr_bytes(pcr: int) -> Seq<u8> {
    let b = pcr % 0x2_0000_0000;
    seq![
        (b / 0x200_0000 % 256) as u8,
        (b / 0x2_0000 % 256) as u8,
        (b / 0x200 % 256) as u8,
        (b / 2 % 256) as u8,
        (b % 2 * 128 + 0x7E) as u8,
        0u8,
    ]
}

/// What the adaptation field of a first packet states.
pub open spec fn first_adaptation(pcr: Option<u64>, random_access: bool) -> Seq<u8> {
    let ra: int = if random_access {
        0x40
    } else {
        0
    };
    match pcr {
        Some(v) => seq![(ra + 0x10) as u8] + pcr_bytes(v as int),
        None => seq![ra as u8],
    }
}

/// How many payload bytes a packet that starts a PES packet has room for.
pub open spec fn first_room(pcr: Option<u64>, random_access: bool) -> int {
    if pcr is Some {
        176
    } else if random_access {
        182
    } else {
        184
    }
}

/// One packet that carries `payload`, with the adaptation field `af` where it is not empty. What
/// the payload leaves free is stuffed inside the adaptation field.
#[verifier::opaque]
pub open spec fn pes_ts_packet(
    pid: u16,
    starts: bool,
    cc: int,
    af: Seq<u8>,
    payload: Seq<u8>,
) -> Seq<u8> {
    if af.len() > 0 {
        packet_header(pid, starts, 3, cc) + seq![(183 - payload.len()) as u8] + af + stuffing(
            183 - payload.len() - af.len(),
        ) + payload
    } else if payload.len() >= 184 {
        packet_header(pid, starts, 1, cc) + payload
    } else if payload.len() == 183 {
        packet_header(pid, starts, 3, cc) + seq![0u8] + payload
    } else {
        packet_header(pid, starts, 3, cc) + seq![(183 - payload.len()) as u8, 0u8] + stuffing(
            182 - payload.len(),
        ) + payload
    }
}

/// The packets of a PES packet from its byte `off` on. The first carries the PCR and the
/// random-access mark.
pub open spec fn pes_ts_packets(
    pid: u16,
    pes: Seq<u8>,
    off: int,
    pcr: Option<u64>,
    random_access: bool,
    cc: int,
) -> Seq<u8>
    decreases pes.len() - off,
{
    if off < 0 || off >= pes.len() {
        Seq::empty()
    } else {
        let starts = off == 0;
        let room: int = if starts {
            first_room(pcr, random_access)
        } else {
            184
        };
        let end = if pes.len() - off < room {
            pes.len() as int
        } else {
            off + room
        };
        let af = if starts && (pcr is Some || random_access) {
            first_adaptation(pcr, random_access)
        } else {
            Seq::empty()
        };
        pes_ts_packet(pid, starts, cc, af, pes.subrange(off, end)) + pes_ts_packets(
            pid,
            pes,
            end,
            pcr,
            random_access,
            (cc + 1) % 16,
        )
    }
}

/// How many packets `n` bytes take when the first has room for `room`.
pub open spec fn packet_count(n: int, room: int) -> nat
    decreases n,
{
    if n <= 0 {
        0
    } else if room <= 0 || n <= room {
        1
    } else {
        1 + packet_count(n - room, 184)
    }
}

/// The payload of a packet, by its own header.
pub open spec fn payload_of(pkt: Seq<u8>) -> Seq<u8> {
    if pkt[3] as int / 16 == 3 {
        pkt.skip(5 + pkt[4])
    } else {
        pkt.skip(4)
    }
}

/// The payloads of the packets of a stream, joined.
pub open spec fn payloads(stream: Seq<u8>) -> Seq<u8>
    decreases stream.len(),
{
    if stream.len() < 188 {
        Seq::empty()
    } else {
        payload_of(stream.take(188)) + payloads(stream.skip(188))
    }
}

/// Whether a stream is made of `n` packets of a PID that start with the sync byte and count on
/// from `cc`.
pub open spec fn is_packet_run(stream: Seq<u8>, pid: u16, n: nat, cc: int) -> bool {
    &&& stream.len() == 188 * n
    &&& forall|k: int|
        0 <= k < n ==> {
            &&& #[trigger] stream[188 * k] == 0x47
            &&& stream[188 * k + 1] as int % 32 * 256 + stream[188 * k + 2] == pid as int % 0x2000
            &&& stream[188 * k + 3] as int % 16 == (cc + k) % 16
        }
}

proof fn lemma_one_packet(pid: u16, starts: bool, cc: int, af: Seq<u8>, payload: Seq<u8>)
    requires
        0 <= cc < 16,
        payload.len() <= 184,
        af.len() > 0 ==> payload.len() + af.len() <= 183,
    ensures
        ({
            let p = pes_ts_packet(pid, starts, cc, af, payload);
            &&& p.len() == 188
            &&& p[0] == 0x47
            &&& p[1] as int % 32 * 256 + p[2] == pid as int % 0x2000
            &&& p[1] as int / 64 == if starts {
                1int
            } else {
                0
            }
            &&& p[3] as int % 16 == cc
            &&& payload_of(p) == payload
        }),
{
    reveal(pes_ts_packet);
    let p = pes_ts_packet(pid, starts, cc, af, payload);
    assert(p.len() == 188);
    assert(p.take(4) =~= packet_header(
        pid,
        starts,
        if af.len() > 0 || payload.len() < 184 {
            3
        } else {
            1
        },
        cc,
    ));
    assert(p[0] == p.take(4)[0] && p[1] == p.take(4)[1] && p[2] == p.take(4)[2] && p[3] == p.take(
        4,
    )[3]);
    assert(payload_of(p) =~= payload);
}

proof fn lemma_run_grows(pkt: Seq<u8>, rest: Seq<u8>, pid: u16, m: nat, cc: int)
    requires
        0 <= cc < 16,
        pkt.len() == 188,
        pkt[0] == 0x47,
        pkt[1] as int % 32 * 256 + pkt[2] == pid as int % 0x2000,
        pkt[3] as int % 16 == cc,
        is_packet_run(rest, pid, m, (cc + 1) % 16),
    ensures
        is_packet_run(pkt + rest, pid, 1 + m, cc),
{
    let out = pkt + rest;
    assert forall|k: int| 0 <= k < 1 + m implies {
        &&& #[trigger] out[188 * k] == 0x47
        &&& out[188 * k + 1] as int % 32 * 256 + out[188 * k + 2] == pid as int % 0x2000
        &&& out[188 * k + 3] as int % 16 == (cc + k) % 16
    } by {
        if k > 0 {
            let j = k - 1;
            assert(rest[188 * j] == 0x47);
            assert(out[188 * k] == rest[188 * j]);
            assert(out[188 * k + 1] == rest[188 * j + 1]);
            assert(out[188 * k + 2] == rest[188 * j + 2]);
            assert(out[188 * k + 3] == rest[188 * j + 3]);
            assert(((cc + 1) % 16 + j) % 16 == (cc + k) % 16);
        }
    }
}

/// The packets of a PES packet: they carry the sync byte and the PID, count on without a gap, and
/// their payloads joined are the PES packet.
pub proof fn law_packets_carry_pes(
    pid: u16,
    pes: Seq<u8>,
    off: int,
    pcr: Option<u64>,
    random_access: bool,
    cc: int,
)
    requires
        0 <= off <= pes.len(),
        0 <= cc < 16,
    ensures
        ({
            let room: int = if off == 0 {
                first_room(pcr, random_access)
            } else {
                184
            };
            let out = pes_ts_packets(pid, pes, off, pcr, random_access, cc);
            &&& is_packet_run(out, pid, packet_count(pes.len() - off, room), cc)
            &&& payloads(out) == pes.skip(off)
        }),
    decreases pes.len() - off,
{
    let room: int = if off == 0 {
        first_room(pcr, random_access)
    } else {
        184
    };
    let out = pes_ts_packets(pid, pes, off, pcr, random_access, cc);
    if off >= pes.len() {
        assert(pes.skip(off) =~= Seq::<u8>::empty());
        assert(packet_count(pes.len() - off, room) == 0);
        assert(out =~= Seq::<u8>::empty());
    } else {
        let starts = off == 0;
        let end = if pes.len() - off < room {
            pes.len() as int
        } else {
            off + room
        };
        let af = if starts && (pcr is Some || random_access) {
            first_adaptation(pcr, random_access)
        } else {
            Seq::empty()
        };
        let payload = pes.subrange(off, end);
        let pkt = pes_ts_packet(pid, starts, cc, af, payload);
        let cc2 = (cc + 1) % 16;
        let rest = pes_ts_packets(pid, pes, end, pcr, random_access, cc2);
        lemma_one_packet(pid, starts, cc, af, payload);
        law_packets_carry_pes(pid, pes, end, pcr, random_access, cc2);
        let n = packet_count(pes.len() - off, room);
        let m = packet_count(pes.len() - end, 184);
        assert(out == pkt + rest);
        assert(n == 1 + m);
        lemma_run_grows(pkt, rest, pid, m, cc);
        assert(out.take(188) =~= pkt);
        assert(out.skip(188) =~= rest);
        assert(payload + pes.skip(end) =~= pes.skip(off));
    }
}

/// Only the packet that starts a PES packet says so.
pub proof fn law_only_first_packet_starts(
    pid: u16,
    pes: Seq<u8>,
    off: int,
    pcr: Option<u64>,
    random_access: bool,
    cc: int,
    k: int,
)
    requires
        0 <= off <= pes.len(),
        0 <= cc < 16,
        0 <= k,
        188 * (k + 1) <= pes_ts_packets(pid, pes, off, pcr, random_access, cc).len(),
    ensures
        pes_ts_packets(pid, pes, off, pcr, random_access, cc)[188 * k + 1] as int / 64 == if off == 0
            && k == 0 {
            1int
        } else {
            0
        },
    decreases k,
{
    let room: int = if off == 0 {
        first_room(pcr, random_access)
    } else {
        184
    };
    let out = pes_ts_packets(pid, pes, off, pcr, random_access, cc);
    assert(off < pes.len());
    let starts = off == 0;
    let end = if pes.len() - off < room {
        pes.len() as int
    } else {
        off + room
    };
    let af = if starts && (pcr is Some || random_access) {
        first_adaptation(pcr, random_access)
    } else {
        Seq::empty()
    };
    let pkt = pes_ts_packet(pid, starts, cc, af, pes.subrange(off, end));
    lemma_one_packet(pid, starts, cc, af, pes.subrange(off, end));
    let rest = pes_ts_packets(pid, pes, end, pcr, random_access, (cc + 1) % 16);
    assert(out == pkt + rest);
    if k == 0 {
        assert(out[1] == pkt[1]);
    } else {
        law_only_first_packet_starts(
            pid,
            pes,
            end,
            pcr,
            random_access,
            (cc + 1) % 16,
            k - 1,
        );
        assert(out[188 * k + 1] == rest[188 * (k - 1) + 1]);
    }
}

/// The first packet of a PES packet says whether it allows random access, and states the PCR.
pub proof fn law_first_packet_states_pcr(
    pid: u16,
    pes: Seq<u8>,
    pcr: u64,
    random_access: bool,
    cc: int,
)
    requires
        pes.len() > 0,
        0 <= cc < 16,
    ensures
        ({
            let out = pes_ts_packets(pid, pes, 0, Some(pcr), random_access, cc);
            &&& out.len() >= 188
            &&& out[3] as int / 16 == 3
            &&& out[4] >= 7
            &&& out[5] == if random_access {
                0x50u8
            } else {
                0x10u8
            }
            &&& out.subrange(6, 12) == pcr_bytes(pcr as int)
        }),
{
    let out = pes_ts_packets(pid, pes, 0, Some(pcr), random_access, cc);
    let end = if pes.len() < 176 {
        pes.len() as int
    } else {
        176
    };
    let af = first_adaptation(Some(pcr), random_access);
    let payload = pes.subrange(0, end);
    let pkt = pes_ts_packet(pid, true, cc, af, payload);
    let h = packet_header(pid, true, 3, cc);
    let rest = pes_ts_packets(pid, pes, end, Some(pcr), random_access, (cc + 1) % 16);
    lemma_one_packet(pid, true, cc, af, payload);
    assert(out == pkt + rest);
    reveal(pes_ts_packet);
    assert(pkt[3] == h[3]);
    assert(pkt[4] == (183 - payload.len()) as u8);
    assert(pkt[5] == af[0]);
    assert(out.subrange(6, 12) =~= pcr_bytes(pcr as int)) by {
        assert forall|i: int| 0 <= i < 6 implies out[6 + i] == pcr_bytes(pcr as int)[i] by {
            assert(out[6 + i] == pkt[6 + i]);
            assert(pkt[6 + i] == af[1 + i]);
        }
    }
}

fn push_stuffing(out: &mut Vec<u8>, n: usize)
    ensures
        final(out)@ == old(out)@ + stuffing(n as int),
{
    for i in 0..n
        invariant
            out@ == old(out)@ + stuffing(i as int),
    {
        out.push(0xFF);
        assert(stuffing(i + 1) =~= stuffing(i as int).push(0xFF));
    }
    assert(out@ =~= old(out)@ + stuffing(n as int));
}

fn push_header(out: &mut Vec<u8>, pid: u16, starts: bool, control: u8, cc: u8)
    requires
        control < 4,
        cc < 16,
    ensures
        final(out)@ == old(out)@ + packet_header(pid, starts, control as int, cc as int),
{
    let start: u8 = if starts {
        0x40
    } else {
        0
    };
    out.push(SYNC_BYTE);
    out.push(start + (pid / 256 % 32) as u8);
    out.push((pid % 256) as u8);
    out.push(control * 16 + cc);
    assert(out@ =~= old(out)@ + packet_header(pid, starts, control as int, cc as int));
}

/// Packs a section into one packet.
pub fn pack_section(pid: u16, section: &[u8], cc: &mut ContinuityCounters) -> (r: Vec<u8>)
    requires
        old(cc).wf(),
    ensures
        r@ == section_packet(pid, section@, counter(old(cc)@, pid)),
        r@.len() == TS_PACKET_SIZE,
        final(cc)@ == advanced(old(cc)@, pid, 1),
        final(cc).wf(),
{
    let mut pkt: Vec<u8> = Vec::new();
    let count: u8 = cc.next(pid);
    push_header(&mut pkt, pid, true, 1, count);
    pkt.push(0x00);
    let n: usize = if section.len() < 183 {
        section.len()
    } else {
        183
    };
    wire::append(&mut pkt, vstd::slice::slice_subrange(section, 0, n));
    push_stuffing(&mut pkt, 183 - n);
    assert(pkt@ =~= section_packet(pid, section@, counter(old(cc)@, pid)));
    pkt
}

fn build_adaptation(pcr90: Option<u64>, random_access: bool) -> (r: Vec<u8>)
    ensures
        r@ == first_adaptation(pcr90, random_access),
{
    let mut af: Vec<u8> = Vec::new();
    let ra: u8 = if random_access {
        0x40
    } else {
        0
    };
    match pcr90 {
        Some(pcr) => {
            let b: u64 = pcr % 0x2_0000_0000;
            af.push(ra + 0x10);
            af.push((b / 0x200_0000 % 256) as u8);
            af.push((b / 0x2_0000 % 256) as u8);
            af.push((b / 0x200 % 256) as u8);
            af.push((b / 2 % 256) as u8);
            af.push((b % 2) as u8 * 128 + 0x7E);
            af.push(0);
        },
        None => {
            af.push(ra);
        },
    }
    assert(af@ =~= first_adaptation(pcr90, random_access));
    af
}

fn push_packet(out: &mut Vec<u8>, pid: u16, starts: bool, cc: u8, af: &[u8], payload: &[u8])
    requires
        cc < 16,
        payload.len() <= 184,
        af.len() > 0 ==> payload.len() + af.len() <= 183,
    ensures
        final(out)@ == old(out)@ + pes_ts_packet(pid, starts, cc as int, af@, payload@),
{
    let n: usize = payload.len();
    if af.len() > 0 {
        push_header(out, pid, starts, 3, cc);
        out.push((183 - n) as u8);
        wire::append(out, af);
        push_stuffing(out, 183 - n - af.len());
    } else if n == 184 {
        push_header(out, pid, starts, 1, cc);
    } else if n == 183 {
        push_header(out, pid, starts, 3, cc);
        out.push(0);
    } else {
        push_header(out, pid, starts, 3, cc);
        out.push((183 - n) as u8);
        out.push(0);
        push_stuffing(out, 182 - n);
    }
    wire::append(out, payload);
    reveal(pes_ts_packet);
    assert(out@ =~= old(out)@ + pes_ts_packet(pid, starts, cc as int, af@, payload@));
}

/// Packs a PES packet into consecutive packets, which are appended to `out`.
pub fn pack_pes(
    pid: u16,
    pes: &[u8],
    pcr90: Option<u64>,
    random_access: bool,
    cc: &mut ContinuityCounters,
    out: &mut Vec<u8>,
)
    requires
        old(cc).wf(),
    ensures
        final(out)@ == old(out)@ + pes_ts_packets(
            pid,
            pes@,
            0,
            pcr90,
            random_access,
            counter(old(cc)@, pid),
        ),
        final(cc)@ == advanced(
            old(cc)@,
            pid,
            packet_count(pes@.len() as int, first_room(pcr90, random_access)) as int,
        ),
        final(cc).wf(),
{
    let len: usize = pes.len();
    let none: Vec<u8> = Vec::new();
    let marked: bool = random_access || pcr90.is_some();
    let first_af: Vec<u8> = if marked {
        build_adaptation(pcr90, random_access)
    } else {
        Vec::new()
    };
    let first: usize = if pcr90.is_some() {
        176
    } else if random_access {
        182
    } else {
        184
    };
    let ghost cc0 = counter(old(cc)@, pid);
    let ghost all = pes_ts_packets(pid, pes@, 0, pcr90, random_access, cc0);
    let ghost total = packet_count(len as int, first as int);
    let ghost mut sent: int = 0;
    let mut offset: usize = 0;
    assert(0 <= cc0 < 16) by {
        assert(old(cc)@.dom().contains(pid) ==> old(cc)@[pid] < 16);
    }
    assert(out@ + all =~= old(out)@ + all);
    while offset < len
        invariant
            len == pes@.len(),
            offset <= len,
            cc.wf(),
            first == first_room(pcr90, random_access),
            marked == (pcr90 is Some || random_access),
            none@ == Seq::<u8>::empty(),
            marked ==> first_af@ == first_adaptation(pcr90, random_access),
            !marked ==> first_af@.len() == 0,
            total == packet_count(len as int, first as int),
            sent >= 0,
            offset == 0 ==> sent == 0,
            offset > 0 ==> sent > 0,
            cc0 == counter(old(cc)@, pid),
            counter(cc@, pid) == (cc0 + sent) % 16,
            cc@ == advanced(old(cc)@, pid, sent),
            0 <= cc0 < 16,
            total == sent + packet_count(
                len - offset,
                if offset == 0 {
                    first as int
                } else {
                    184
                },
            ),
            out@ + pes_ts_packets(
                pid,
                pes@,
                offset as int,
                pcr90,
                random_access,
                counter(cc@, pid),
            ) == old(out)@ + all,
        decreases len - offset,
    {
        let starts: bool = offset == 0;
        let room: usize = if starts {
            first
        } else {
            184
        };
        let end: usize = if len - offset < room {
            len
        } else {
            offset + room
        };
        let ghost before = out@;
        let ghost counters = cc@;
        let count: u8 = cc.next(pid);
        let payload: &[u8] = vstd::slice::slice_subrange(pes, offset, end);
        let ghost rest = pes_ts_packets(
            pid,
            pes@,
            end as int,
            pcr90,
            random_access,
            (count + 1) % 16,
        );
        if starts && marked {
            push_packet(out, pid, starts, count, first_af.as_slice(), payload);
        } else {
            push_packet(out, pid, starts, count, none.as_slice(), payload);
        }
        proof {
            let af = if starts && marked {
                first_adaptation(pcr90, random_access)
            } else {
                Seq::empty()
            };
            let pkt = pes_ts_packet(pid, starts, count as int, af, payload@);
            assert(out@ == before + pkt);
            assert(pes_ts_packets(
                pid,
                pes@,
                offset as int,
                pcr90,
                random_access,
                count as int,
            ) == pkt + rest);
            assert(before + (pkt + rest) =~= out@ + rest);
            assert(packet_count(len - offset, room as int) == 1 + packet_count(len - end, 184));
            sent = sent + 1;
            assert((count + 1) % 16 == (cc0 + sent) % 16);
            assert(cc@ =~= advanced(old(cc)@, pid, sent));
        }
        offset = end;
    }
    assert(out@ =~= old(out)@ + all);
}

} // verus!
