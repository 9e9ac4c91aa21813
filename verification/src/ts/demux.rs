//! What a receiver finds in a stream of packets: the bytes and the counters of each PID.

use vstd::prelude::*;

use super::muxer;
use super::muxer::{AudioUnitView, MuxerView};
use super::packet;
use super::pat;
use super::pes;
use super::{PID_AUDIO, PID_PAT, PID_PMT, PID_VIDEO};
use crate::hevc::annexb;
use crate::hevc::annexb::AccessUnitView;

verus! {

/// The PID of a packet.
pub open spec fn pid_of(pkt: Seq<u8>) -> int {
    pkt[1] as int % 32 * 256 + pkt[2]
}

/// The payloads of the packets with a PID, joined.
pub open spec fn carried(stream: Seq<u8>, pid: u16) -> Seq<u8>
    decreases stream.len(),
{
    if stream.len() < 188 {
        Seq::empty()
    } else {
        (if pid_of(stream.take(188)) == pid {
            packet::payload_of(stream.take(188))
        } else {
            Seq::empty()
        }) + carried(stream.skip(188), pid)
    }
}

/// How many packets have a PID.
pub open spec fn packets_of(stream: Seq<u8>, pid: u16) -> nat
    decreases stream.len(),
{
    if stream.len() < 188 {
        0
    } else {
        (if pid_of(stream.take(188)) == pid {
            1nat
        } else {
            0
        }) + packets_of(stream.skip(188), pid)
    }
}

/// Whether the packets with a PID count on from `cc` without a gap.
pub open spec fn counts_on(stream: Seq<u8>, pid: u16, cc: int) -> bool
    decreases stream.len(),
{
    if stream.len() < 188 {
        true
    } else if pid_of(stream.take(188)) == pid {
        stream[3] as int % 16 == cc && counts_on(stream.skip(188), pid, (cc + 1) % 16)
    } else {
        counts_on(stream.skip(188), pid, cc)
    }
}

/// Whether a packet starts a PES packet or a section.
pub open spec fn starts(pkt: Seq<u8>) -> bool {
    pkt[1] as int / 64 % 2 == 1
}

/// Whether a packet has an adaptation field with flags.
pub open spec fn has_flags(pkt: Seq<u8>) -> bool {
    pkt[3] as int / 32 % 2 == 1 && pkt[4] > 0
}

/// Whether a receiver may start at a packet.
pub open spec fn is_random_access(pkt: Seq<u8>) -> bool {
    has_flags(pkt) && pkt[5] as int / 64 % 2 == 1
}

/// Whether a packet states a PCR.
pub open spec fn has_pcr(pkt: Seq<u8>) -> bool {
    has_flags(pkt) && pkt[5] as int / 16 % 2 == 1
}

/// What is complete when another starts.
pub open spec fn complete(open: Option<Seq<u8>>) -> Seq<Seq<u8>> {
    match open {
        Some(p) => seq![p],
        None => Seq::empty(),
    }
}

/// The PES packets that a receiver puts together of the packets with a PID, behind `open`, which
/// has started. A packet that starts one completes the one before it.
pub open spec fn reassembled(stream: Seq<u8>, pid: u16, open: Option<Seq<u8>>) -> Seq<Seq<u8>>
    decreases stream.len(),
{
    if stream.len() < 188 {
        complete(open)
    } else {
        let pkt = stream.take(188);
        let rest = stream.skip(188);
        if pid_of(pkt) != pid {
            reassembled(rest, pid, open)
        } else if starts(pkt) {
            complete(open) + reassembled(rest, pid, Some(packet::payload_of(pkt)))
        } else {
            reassembled(
                rest,
                pid,
                match open {
                    Some(p) => Some(p + packet::payload_of(pkt)),
                    None => None,
                },
            )
        }
    }
}

proof fn lemma_join(a: Seq<u8>, b: Seq<u8>, pid: u16, cc: int)
    requires
        a.len() % 188 == 0,
        0 <= cc < 16,
    ensures
        carried(a + b, pid) == carried(a, pid) + carried(b, pid),
        packets_of(a + b, pid) == packets_of(a, pid) + packets_of(b, pid),
        counts_on(a + b, pid, cc) == (counts_on(a, pid, cc) && counts_on(
            b,
            pid,
            (cc + packets_of(a, pid)) % 16,
        )),
    decreases a.len(),
{
    let s = a + b;
    if a.len() == 0 {
        assert(s =~= b);
        assert(carried(a, pid) + carried(b, pid) =~= carried(b, pid));
    } else {
        assert(a.len() >= 188);
        let rest = a.skip(188);
        assert(s.take(188) =~= a.take(188));
        assert(s.skip(188) =~= rest + b);
        let own = pid_of(a.take(188)) == pid;
        let next: int = if own {
            (cc + 1) % 16
        } else {
            cc
        };
        lemma_join(rest, b, pid, next);
        let head = if own {
            packet::payload_of(a.take(188))
        } else {
            Seq::empty()
        };
        assert(head + (carried(rest, pid) + carried(b, pid)) =~= head + carried(rest, pid)
            + carried(b, pid));
        assert(s[3] == a[3]);
        if own {
            assert(((cc + 1) % 16 + packets_of(rest, pid)) % 16 == (cc + packets_of(a, pid)) % 16);
        }
    }
}

proof fn lemma_run(stream: Seq<u8>, own: u16, n: nat, cc: int, pid: u16)
    requires
        packet::is_packet_run(stream, own, n, cc),
        0 <= cc < 16,
        own < 0x2000,
        pid < 0x2000,
    ensures
        own == pid ==> carried(stream, pid) == packet::payloads(stream),
        own == pid ==> packets_of(stream, pid) == n,
        own == pid ==> counts_on(stream, pid, cc),
        own != pid ==> carried(stream, pid) == Seq::<u8>::empty(),
        own != pid ==> packets_of(stream, pid) == 0,
        own != pid ==> forall|c: int| #[trigger] counts_on(stream, pid, c),
    decreases n,
{
    if n > 0 {
        let rest = stream.skip(188);
        let m = (n - 1) as nat;
        let next = (cc + 1) % 16;
        let zero: int = 0;
        assert(stream[188 * zero] == 0x47);
        assert(stream.take(188)[1] == stream[188 * zero + 1]);
        assert(stream.take(188)[2] == stream[188 * zero + 2]);
        assert(pid_of(stream.take(188)) == own);
        assert(rest.len() == 188 * m);
        assert forall|k: int| 0 <= k < m implies {
            &&& #[trigger] rest[188 * k] == 0x47
            &&& rest[188 * k + 1] as int % 32 * 256 + rest[188 * k + 2] == own as int % 0x2000
            &&& rest[188 * k + 3] as int % 16 == (next + k) % 16
        } by {
            let j = k + 1;
            assert(stream[188 * j] == 0x47);
            assert(rest[188 * k] == stream[188 * j]);
            assert(rest[188 * k + 1] == stream[188 * j + 1]);
            assert(rest[188 * k + 2] == stream[188 * j + 2]);
            assert(rest[188 * k + 3] == stream[188 * j + 3]);
            assert((next + k) % 16 == (cc + j) % 16);
        }
        lemma_run(rest, own, m, next, pid);
        assert(stream[188 * zero + 3] as int % 16 == (cc + zero) % 16);
        if own != pid {
            assert forall|c: int| #[trigger] counts_on(stream, pid, c) by {
                assert(counts_on(rest, pid, c));
            }
            assert(carried(stream, pid) =~= Seq::<u8>::empty());
        }
    } else {
        assert(stream.len() == 0);
    }
}

/// The PES packets of the frames from `i` on, joined.
pub open spec fn video_stream(m: MuxerView, video: Seq<AccessUnitView>, i: int) -> Seq<u8>
    decreases video.len() - i,
{
    if i < 0 || i >= video.len() {
        Seq::empty()
    } else {
        m.video_pes(video[i]) + video_stream(m, video, i + 1)
    }
}

/// The PES packets of the audio frames from `i` on, joined.
pub open spec fn audio_stream(
    m: MuxerView,
    audio: Seq<AudioUnitView>,
    offset: int,
    i: int,
) -> Seq<u8>
    decreases audio.len() - i,
{
    if i < 0 || i >= audio.len() {
        Seq::empty()
    } else {
        m.audio_pes(audio[i], offset) + audio_stream(m, audio, offset, i + 1)
    }
}

/// Whether counters fit in their four bits.
pub open spec fn counters_fit(counters: Map<u16, u8>) -> bool {
    forall|q: u16| #[trigger] counters.dom().contains(q) ==> counters[q] < 16
}

proof fn lemma_counters(counters: Map<u16, u8>, own: u16, n: int, pid: u16)
    requires
        counters_fit(counters),
        n >= 0,
    ensures
        0 <= packet::counter(counters, pid) < 16,
        counters_fit(packet::advanced(counters, own, n)),
        packet::counter(packet::advanced(counters, own, n), pid) == (if own == pid {
            (packet::counter(counters, pid) + n) % 16
        } else {
            packet::counter(counters, pid)
        }),
{
    assert(counters.dom().contains(pid) ==> counters[pid] < 16);
    let after = packet::advanced(counters, own, n);
    assert forall|q: u16| #[trigger] after.dom().contains(q) implies after[q] < 16 by {
        if q != own || n == 0 {
            assert(counters.dom().contains(q));
        }
    }
}

/// What the packets of one PES packet add to the stream of a PID.
proof fn lemma_pes(
    own: u16,
    p: Seq<u8>,
    pcr: Option<u64>,
    random_access: bool,
    counters: Map<u16, u8>,
    pid: u16,
)
    requires
        counters_fit(counters),
        own < 0x2000,
        pid < 0x2000,
    ensures
        ({
            let cc = packet::counter(counters, own);
            let s = packet::pes_ts_packets(own, p, 0, pcr, random_access, cc);
            let n = packet::packet_count(p.len() as int, packet::first_room(pcr, random_access));
            let after = packet::advanced(counters, own, n as int);
            &&& s.len() % 188 == 0
            &&& counters_fit(after)
            &&& counts_on(s, pid, packet::counter(counters, pid))
            &&& packet::counter(after, pid) == (packet::counter(counters, pid) + packets_of(s, pid))
                % 16
            &&& 0 <= packet::counter(counters, pid) < 16
            &&& carried(s, pid) == (if own == pid {
                p
            } else {
                Seq::empty()
            })
        }),
{
    let cc = packet::counter(counters, own);
    let s = packet::pes_ts_packets(own, p, 0, pcr, random_access, cc);
    let n = packet::packet_count(p.len() as int, packet::first_room(pcr, random_access));
    lemma_counters(counters, own, n as int, own);
    lemma_counters(counters, own, n as int, pid);
    packet::law_packets_carry_pes(own, p, 0, pcr, random_access, cc);
    assert(p.skip(0) =~= p);
    lemma_run(s, own, n, cc, pid);
}

proof fn lemma_interleaved(
    m: MuxerView,
    video: Seq<AccessUnitView>,
    audio: Seq<AudioUnitView>,
    vi: int,
    ai: int,
    offset: int,
    counters: Map<u16, u8>,
    pid: u16,
)
    requires
        0 <= vi <= video.len(),
        0 <= ai <= audio.len(),
        counters_fit(counters),
        pid < 0x2000,
    ensures
        ({
            let b = m.interleaved(video, audio, vi, ai, offset, counters);
            &&& pid == PID_VIDEO ==> carried(b.bytes, pid) == video_stream(m, video, vi)
            &&& pid == PID_AUDIO ==> carried(b.bytes, pid) == audio_stream(m, audio, offset, ai)
            &&& counts_on(b.bytes, pid, packet::counter(counters, pid))
            &&& packet::counter(b.counters, pid) == (packet::counter(counters, pid) + packets_of(
                b.bytes,
                pid,
            )) % 16
            &&& counters_fit(b.counters)
        }),
    decreases (video.len() - vi) + (audio.len() - ai),
{
    lemma_counters(counters, pid, 0, pid);
    let cc = packet::counter(counters, pid);
    if vi == video.len() && ai == audio.len() {
    } else if m.video_goes_first(video, audio, vi, ai, offset) {
        let ra = vi == 0 || video[vi].is_irap;
        let one = m.video_packets(video[vi], ra, counters);
        let rest = m.interleaved(video, audio, vi + 1, ai, offset, one.counters);
        lemma_pes(PID_VIDEO, m.video_pes(video[vi]), Some(m.pcr(video[vi])), ra, counters, pid);
        lemma_interleaved(m, video, audio, vi + 1, ai, offset, one.counters, pid);
        lemma_join(one.bytes, rest.bytes, pid, cc);
        lemma_sum(cc, packets_of(one.bytes, pid), packets_of(rest.bytes, pid));
        if pid == PID_AUDIO {
            assert(Seq::<u8>::empty() + carried(rest.bytes, pid) =~= carried(rest.bytes, pid));
        }
    } else {
        let one = m.audio_packets(audio[ai], offset, counters);
        let rest = m.interleaved(video, audio, vi, ai + 1, offset, one.counters);
        lemma_pes(PID_AUDIO, m.audio_pes(audio[ai], offset), None, false, counters, pid);
        lemma_interleaved(m, video, audio, vi, ai + 1, offset, one.counters, pid);
        lemma_join(one.bytes, rest.bytes, pid, cc);
        lemma_sum(cc, packets_of(one.bytes, pid), packets_of(rest.bytes, pid));
        if pid == PID_VIDEO {
            assert(Seq::<u8>::empty() + carried(rest.bytes, pid) =~= carried(rest.bytes, pid));
        }
    }
}

proof fn lemma_sum(cc: int, a: nat, b: nat)
    ensures
        ((cc + a) % 16 + b) % 16 == (cc + (a + b)) % 16,
{
}

proof fn lemma_section(own: u16, section: Seq<u8>, counters: Map<u16, u8>, pid: u16)
    requires
        counters_fit(counters),
        own < 0x2000,
        pid < 0x2000,
    ensures
        ({
            let s = packet::section_packet(own, section, packet::counter(counters, own));
            let after = packet::advanced(counters, own, 1);
            &&& s.len() == 188
            &&& counters_fit(after)
            &&& 0 <= packet::counter(counters, pid) < 16
            &&& counts_on(s, pid, packet::counter(counters, pid))
            &&& packet::counter(after, pid) == (packet::counter(counters, pid) + packets_of(s, pid))
                % 16
            &&& own != pid ==> carried(s, pid) == Seq::<u8>::empty()
        }),
{
    let cc = packet::counter(counters, own);
    let s = packet::section_packet(own, section, cc);
    lemma_counters(counters, own, 1, own);
    lemma_counters(counters, own, 1, pid);
    assert(s.len() == 188);
    let h = packet::packet_header(own, true, 1, cc);
    assert(s.take(188) =~= s);
    assert(s[1] == h[1] && s[2] == h[2] && s[3] == h[3]);
    assert(pid_of(s) == own);
    let rest = s.skip(188);
    assert(rest.len() == 0);
    reveal_with_fuel(counts_on, 2);
    reveal_with_fuel(packets_of, 2);
    reveal_with_fuel(carried, 2);
    if own != pid {
        assert(carried(s, pid) =~= Seq::<u8>::empty());
    }
}

proof fn lemma_segment(
    m: MuxerView,
    video: Seq<AccessUnitView>,
    audio: Seq<AudioUnitView>,
    pid: u16,
)
    requires
        counters_fit(m.counters),
        pid < 0x2000,
    ensures
        ({
            let s = m.segment(video, audio);
            let offset = m.audio_offset(video, audio);
            &&& pid == PID_VIDEO ==> carried(s.bytes, pid) == video_stream(m, video, 0)
            &&& pid == PID_AUDIO ==> carried(s.bytes, pid) == audio_stream(m, audio, offset, 0)
            &&& counts_on(s.bytes, pid, packet::counter(m.counters, pid))
            &&& packet::counter(s.counters, pid) == (packet::counter(m.counters, pid) + packets_of(
                s.bytes,
                pid,
            )) % 16
            &&& counters_fit(s.counters)
        }),
{
    let offset = m.audio_offset(video, audio);
    let c0 = m.counters;
    let c1 = packet::advanced(c0, PID_PAT, 1);
    let c2 = packet::advanced(c1, PID_PMT, 1);
    let a = packet::section_packet(
        PID_PAT,
        pat::pat_section(PID_PMT),
        packet::counter(c0, PID_PAT),
    );
    let b = packet::section_packet(PID_PMT, m.pmt(), packet::counter(c1, PID_PMT));
    let body = m.interleaved(video, audio, 0, 0, offset, c2);
    lemma_section(PID_PAT, pat::pat_section(PID_PMT), c0, pid);
    lemma_section(PID_PMT, m.pmt(), c1, pid);
    lemma_interleaved(m, video, audio, 0, 0, offset, c2, pid);
    let cc = packet::counter(c0, pid);
    lemma_join(a, b, pid, cc);
    lemma_join(a + b, body.bytes, pid, cc);
    lemma_sum(cc, packets_of(a, pid), packets_of(b, pid));
    lemma_sum(cc, packets_of(a + b, pid), packets_of(body.bytes, pid));
    let e = Seq::<u8>::empty();
    if pid == PID_VIDEO || pid == PID_AUDIO {
        assert(e + e + carried(body.bytes, pid) =~= carried(body.bytes, pid));
    }
}

/// A segment carries every frame and every audio frame in its order: what a receiver puts together
/// of their PIDs are their PES packets, one after the other, and nothing else.
pub proof fn law_segment_carries_frames(
    m: MuxerView,
    video: Seq<AccessUnitView>,
    audio: Seq<AudioUnitView>,
)
    requires
        counters_fit(m.counters),
    ensures
        carried(m.segment(video, audio).bytes, PID_VIDEO) == video_stream(m, video, 0),
        carried(m.segment(video, audio).bytes, PID_AUDIO) == audio_stream(
            m,
            audio,
            m.audio_offset(video, audio),
            0,
        ),
{
    lemma_segment(m, video, audio, PID_VIDEO);
    lemma_segment(m, video, audio, PID_AUDIO);
}

/// What one segment is made of.
pub struct Part {
    pub video: Seq<AccessUnitView>,
    pub audio: Seq<AudioUnitView>,
}

/// The first `n` segments of a muxer, one behind the other.
pub open spec fn muxed(m: MuxerView, parts: Seq<Part>, n: int) -> muxer::Muxed
    decreases n,
{
    if n <= 0 {
        muxer::Muxed { bytes: Seq::empty(), counters: m.counters }
    } else {
        let before = muxed(m, parts, n - 1);
        let last = (MuxerView { counters: before.counters, ..m }).segment(
            parts[n - 1].video,
            parts[n - 1].audio,
        );
        muxer::Muxed { bytes: before.bytes + last.bytes, counters: last.counters }
    }
}

/// Whether the packets of a PID in a stream count on from `cc` to where its counters stand.
pub open spec fn in_step(s: muxer::Muxed, pid: u16, cc: int) -> bool {
    &&& s.bytes.len() % 188 == 0
    &&& counters_fit(s.counters)
    &&& counts_on(s.bytes, pid, cc)
    &&& packet::counter(s.counters, pid) == (cc + packets_of(s.bytes, pid)) % 16
}

proof fn lemma_in_step(first: muxer::Muxed, last: muxer::Muxed, pid: u16, cc: int)
    requires
        0 <= cc < 16,
        in_step(first, pid, cc),
        in_step(last, pid, packet::counter(first.counters, pid)),
    ensures
        in_step(
            muxer::Muxed { bytes: first.bytes + last.bytes, counters: last.counters },
            pid,
            cc,
        ),
{
    lemma_join(first.bytes, last.bytes, pid, cc);
    lemma_sum(cc, packets_of(first.bytes, pid), packets_of(last.bytes, pid));
}

proof fn lemma_segment_in_step(
    m: MuxerView,
    video: Seq<AccessUnitView>,
    audio: Seq<AudioUnitView>,
    pid: u16,
)
    requires
        counters_fit(m.counters),
        pid < 0x2000,
    ensures
        in_step(m.segment(video, audio), pid, packet::counter(m.counters, pid)),
{
    lemma_segment(m, video, audio, pid);
    muxer::law_segment_is_packets(m, video, audio);
}

proof fn lemma_muxed(m: MuxerView, parts: Seq<Part>, n: int, pid: u16)
    requires
        counters_fit(m.counters),
        pid < 0x2000,
        0 <= n <= parts.len(),
    ensures
        in_step(muxed(m, parts, n), pid, packet::counter(m.counters, pid)),
    decreases n,
{
    lemma_counters(m.counters, pid, 0, pid);
    if n > 0 {
        let before = muxed(m, parts, n - 1);
        let then = MuxerView { counters: before.counters, ..m };
        let part = parts[n - 1];
        lemma_muxed(m, parts, n - 1, pid);
        lemma_segment_in_step(then, part.video, part.audio, pid);
        lemma_in_step(
            before,
            then.segment(part.video, part.audio),
            pid,
            packet::counter(m.counters, pid),
        );
    }
}

/// The packets of a PID count on without a gap through any number of segments that follow each
/// other, from 0 on where the muxer is new.
pub proof fn law_counters_run_on(m: MuxerView, parts: Seq<Part>, pid: u16)
    requires
        counters_fit(m.counters),
        pid < 0x2000,
    ensures
        counts_on(
            muxed(m, parts, parts.len() as int).bytes,
            pid,
            packet::counter(m.counters, pid),
        ),
        m.counters == Map::<u16, u8>::empty() ==> packet::counter(m.counters, pid) == 0,
{
    lemma_muxed(m, parts, parts.len() as int, pid);
}

/// A segment starts with the PAT and the PMT. Where it has frames, the first of them follows: its
/// first packet starts a PES packet, states the PCR and allows random access.
pub proof fn law_segment_can_be_entered(
    m: MuxerView,
    video: Seq<AccessUnitView>,
    audio: Seq<AudioUnitView>,
)
    requires
        counters_fit(m.counters),
    ensures
        ({
            let s = m.segment(video, audio).bytes;
            let third = s.subrange(376, 564);
            &&& muxer::is_packets(s)
            &&& s.len() >= 376
            &&& pid_of(s.take(188)) == PID_PAT
            &&& starts(s.take(188))
            &&& pid_of(s.subrange(188, 376)) == PID_PMT
            &&& starts(s.subrange(188, 376))
            &&& video.len() > 0 ==> {
                &&& s.len() >= 564
                &&& pid_of(third) == PID_VIDEO
                &&& starts(third)
                &&& is_random_access(third)
                &&& has_pcr(third)
                &&& third.subrange(6, 12) == packet::pcr_bytes(m.pcr(video[0]) as int)
            }
        }),
{
    let s = m.segment(video, audio).bytes;
    let c1 = packet::advanced(m.counters, PID_PAT, 1);
    let c2 = packet::advanced(c1, PID_PMT, 1);
    let offset = m.audio_offset(video, audio);
    lemma_counters(m.counters, PID_PAT, 1, PID_PAT);
    lemma_counters(c1, PID_PMT, 1, PID_PMT);
    lemma_counters(c2, PID_VIDEO, 0, PID_VIDEO);
    muxer::law_segment_is_packets(m, video, audio);
    let a = packet::section_packet(
        PID_PAT,
        pat::pat_section(PID_PMT),
        packet::counter(m.counters, PID_PAT),
    );
    let b = packet::section_packet(PID_PMT, m.pmt(), packet::counter(c1, PID_PMT));
    let body = m.interleaved(video, audio, 0, 0, offset, c2).bytes;
    assert(s == a + b + body);
    assert(s.take(188) =~= a);
    assert(s.subrange(188, 376) =~= b);
    let ha = packet::packet_header(PID_PAT, true, 1, packet::counter(m.counters, PID_PAT));
    let hb = packet::packet_header(PID_PMT, true, 1, packet::counter(c1, PID_PMT));
    assert(a[1] == ha[1] && a[2] == ha[2]);
    assert(b[1] == hb[1] && b[2] == hb[2]);
    if video.len() > 0 {
        let cc = packet::counter(c2, PID_VIDEO);
        let p = m.video_pes(video[0]);
        let pcr = m.pcr(video[0]);
        let one = m.video_packets(video[0], true, c2).bytes;
        let third = s.subrange(376, 564);
        assert(m.video_goes_first(video, audio, 0, 0, offset));
        assert(p.len() > 0);
        packet::law_packets_carry_pes(PID_VIDEO, p, 0, Some(pcr), true, cc);
        packet::law_first_packet_states_pcr(PID_VIDEO, p, pcr, true, cc);
        packet::law_only_first_packet_starts(PID_VIDEO, p, 0, Some(pcr), true, cc, 0);
        let zero: int = 0;
        assert(one[188 * zero] == 0x47);
        assert forall|i: int| 0 <= i < 188 implies third[i] == one[i] by {
            assert(body[i] == one[i]);
        }
        assert(third.subrange(6, 12) =~= one.subrange(6, 12));
        assert(third[1] == one[1] && third[2] == one[2] && third[3] == one[3] && third[4] == one[4]
            && third[5] == one[5]);
    }
}

proof fn lemma_reassembled_run(
    stream: Seq<u8>,
    own: u16,
    n: nat,
    cc: int,
    first: bool,
    pid: u16,
    open: Option<Seq<u8>>,
    b: Seq<u8>,
)
    requires
        packet::is_packet_run(stream, own, n, cc),
        0 <= cc < 16,
        own < 0x2000,
        pid < 0x2000,
        forall|k: int|
            0 <= k < n ==> (#[trigger] stream[188 * k + 1]) as int / 64 == if first && k == 0 {
                1int
            } else {
                0
            },
    ensures
        own != pid ==> reassembled(stream + b, pid, open) == reassembled(b, pid, open),
        own == pid && first && n > 0 ==> reassembled(stream + b, pid, open) == complete(open)
            + reassembled(b, pid, Some(packet::payloads(stream))),
        own == pid && !first && open is Some ==> reassembled(stream + b, pid, open) == reassembled(
            b,
            pid,
            Some(open->0 + packet::payloads(stream)),
        ),
    decreases n,
{
    let s = stream + b;
    if n > 0 {
        let rest = stream.skip(188);
        let m = (n - 1) as nat;
        let next = (cc + 1) % 16;
        let zero: int = 0;
        let pkt = stream.take(188);
        assert(stream[188 * zero] == 0x47);
        assert(pkt[1] == stream[188 * zero + 1]);
        assert(pkt[2] == stream[188 * zero + 2]);
        assert(pid_of(pkt) == own);
        assert(starts(pkt) == first);
        assert(s.take(188) =~= pkt);
        assert(s.skip(188) =~= rest + b);
        assert(rest.len() == 188 * m);
        assert forall|k: int| 0 <= k < m implies {
            &&& #[trigger] rest[188 * k] == 0x47
            &&& rest[188 * k + 1] as int % 32 * 256 + rest[188 * k + 2] == own as int % 0x2000
            &&& rest[188 * k + 3] as int % 16 == (next + k) % 16
        } by {
            let j = k + 1;
            assert(stream[188 * j] == 0x47);
            assert(rest[188 * k] == stream[188 * j]);
            assert(rest[188 * k + 1] == stream[188 * j + 1]);
            assert(rest[188 * k + 2] == stream[188 * j + 2]);
            assert(rest[188 * k + 3] == stream[188 * j + 3]);
            assert((next + k) % 16 == (cc + j) % 16);
        }
        assert forall|k: int| 0 <= k < m implies (#[trigger] rest[188 * k + 1]) as int / 64
            == 0 by {
            let j = k + 1;
            assert(rest[188 * k + 1] == stream[188 * j + 1]);
        }
        let payload = packet::payload_of(pkt);
        let more = packet::payloads(rest);
        if own != pid {
            lemma_reassembled_run(rest, own, m, next, false, pid, open, b);
        } else if first {
            lemma_reassembled_run(rest, own, m, next, false, pid, Some(payload), b);
        } else if let Some(p) = open {
            lemma_reassembled_run(rest, own, m, next, false, pid, Some(p + payload), b);
            assert(p + payload + more =~= p + (payload + more));
        }
    } else {
        assert(s =~= b);
        if let Some(p) = open {
            assert(p + packet::payloads(stream) =~= p);
        }
    }
}

proof fn lemma_reassembled_pes(
    own: u16,
    p: Seq<u8>,
    pcr: Option<u64>,
    random_access: bool,
    cc: int,
    pid: u16,
    open: Option<Seq<u8>>,
    b: Seq<u8>,
)
    requires
        0 <= cc < 16,
        own < 0x2000,
        pid < 0x2000,
        p.len() > 0,
    ensures
        ({
            let s = packet::pes_ts_packets(own, p, 0, pcr, random_access, cc);
            reassembled(s + b, pid, open) == if own == pid {
                complete(open) + reassembled(b, pid, Some(p))
            } else {
                reassembled(b, pid, open)
            }
        }),
{
    let s = packet::pes_ts_packets(own, p, 0, pcr, random_access, cc);
    let n = packet::packet_count(p.len() as int, packet::first_room(pcr, random_access));
    packet::law_packets_carry_pes(own, p, 0, pcr, random_access, cc);
    assert(p.skip(0) =~= p);
    assert forall|k: int| 0 <= k < n implies (#[trigger] s[188 * k + 1]) as int / 64 == if true && k
        == 0 {
        1int
    } else {
        0
    } by {
        packet::law_only_first_packet_starts(own, p, 0, pcr, random_access, cc, k);
    }
    lemma_reassembled_run(s, own, n, cc, true, pid, open, b);
}

/// The PES packets of the frames from `i` on.
pub open spec fn video_units(m: MuxerView, video: Seq<AccessUnitView>, i: int) -> Seq<Seq<u8>> {
    Seq::new((video.len() - i) as nat, |k: int| m.video_pes(video[i + k]))
}

/// The PES packets of the audio frames from `i` on.
pub open spec fn audio_units(
    m: MuxerView,
    audio: Seq<AudioUnitView>,
    offset: int,
    i: int,
) -> Seq<Seq<u8>> {
    Seq::new((audio.len() - i) as nat, |k: int| m.audio_pes(audio[i + k], offset))
}

proof fn lemma_reassembled_frames(
    m: MuxerView,
    video: Seq<AccessUnitView>,
    audio: Seq<AudioUnitView>,
    vi: int,
    ai: int,
    offset: int,
    counters: Map<u16, u8>,
    pid: u16,
    open: Option<Seq<u8>>,
)
    requires
        0 <= vi <= video.len(),
        0 <= ai <= audio.len(),
        counters_fit(counters),
        pid == PID_VIDEO || pid == PID_AUDIO,
    ensures
        reassembled(m.interleaved(video, audio, vi, ai, offset, counters).bytes, pid, open)
            == complete(open) + (if pid == PID_VIDEO {
            video_units(m, video, vi)
        } else {
            audio_units(m, audio, offset, ai)
        }),
    decreases (video.len() - vi) + (audio.len() - ai),
{
    let whole = m.interleaved(video, audio, vi, ai, offset, counters).bytes;
    let vs = video_units(m, video, vi);
    let aus = audio_units(m, audio, offset, ai);
    if vi == video.len() && ai == audio.len() {
        assert(complete(open) + vs =~= complete(open));
        assert(complete(open) + aus =~= complete(open));
    } else if m.video_goes_first(video, audio, vi, ai, offset) {
        let ra = vi == 0 || video[vi].is_irap;
        let p = m.video_pes(video[vi]);
        let pcr = Some(m.pcr(video[vi]));
        let one = m.video_packets(video[vi], ra, counters);
        let rest = m.interleaved(video, audio, vi + 1, ai, offset, one.counters).bytes;
        let n = packet::packet_count(p.len() as int, packet::first_room(pcr, ra));
        lemma_counters(counters, PID_VIDEO, n as int, PID_VIDEO);
        lemma_reassembled_pes(
            PID_VIDEO,
            p,
            pcr,
            ra,
            packet::counter(counters, PID_VIDEO),
            pid,
            open,
            rest,
        );
        let then = if pid == PID_VIDEO {
            Some(p)
        } else {
            open
        };
        lemma_reassembled_frames(m, video, audio, vi + 1, ai, offset, one.counters, pid, then);
        assert(seq![p] + video_units(m, video, vi + 1) =~= vs);
        assert(complete(open) + (seq![p] + video_units(m, video, vi + 1)) =~= complete(open) + vs);
    } else {
        let p = m.audio_pes(audio[ai], offset);
        let one = m.audio_packets(audio[ai], offset, counters);
        let rest = m.interleaved(video, audio, vi, ai + 1, offset, one.counters).bytes;
        let n = packet::packet_count(p.len() as int, 184);
        lemma_counters(counters, PID_AUDIO, n as int, PID_AUDIO);
        lemma_reassembled_pes(
            PID_AUDIO,
            p,
            None,
            false,
            packet::counter(counters, PID_AUDIO),
            pid,
            open,
            rest,
        );
        let then = if pid == PID_AUDIO {
            Some(p)
        } else {
            open
        };
        lemma_reassembled_frames(m, video, audio, vi, ai + 1, offset, one.counters, pid, then);
        assert(seq![p] + audio_units(m, audio, offset, ai + 1) =~= aus);
        assert(complete(open) + (seq![p] + audio_units(m, audio, offset, ai + 1)) =~= complete(open)
            + aus);
    }
}

/// A receiver puts together one PES packet for each frame and for each audio frame of a segment,
/// in their order.
pub proof fn law_frames_are_reassembled(
    m: MuxerView,
    video: Seq<AccessUnitView>,
    audio: Seq<AudioUnitView>,
)
    requires
        counters_fit(m.counters),
    ensures
        reassembled(m.segment(video, audio).bytes, PID_VIDEO, None) == video_units(m, video, 0),
        reassembled(m.segment(video, audio).bytes, PID_AUDIO, None) == audio_units(
            m,
            audio,
            m.audio_offset(video, audio),
            0,
        ),
{
    let s = m.segment(video, audio).bytes;
    let c1 = packet::advanced(m.counters, PID_PAT, 1);
    let c2 = packet::advanced(c1, PID_PMT, 1);
    let offset = m.audio_offset(video, audio);
    let body = m.interleaved(video, audio, 0, 0, offset, c2).bytes;
    lemma_counters(m.counters, PID_PAT, 1, PID_PAT);
    lemma_counters(c1, PID_PMT, 1, PID_PMT);
    law_segment_can_be_entered(m, video, audio);
    assert(s.skip(188).take(188) =~= s.subrange(188, 376));
    assert(s.skip(188).skip(188) =~= body);
    lemma_reassembled_frames(m, video, audio, 0, 0, offset, c2, PID_VIDEO, None);
    lemma_reassembled_frames(m, video, audio, 0, 0, offset, c2, PID_AUDIO, None);
    let none = Seq::<Seq<u8>>::empty();
    assert(none + video_units(m, video, 0) =~= video_units(m, video, 0));
    assert(none + audio_units(m, audio, offset, 0) =~= audio_units(m, audio, offset, 0));
    reveal_with_fuel(reassembled, 3);
}

/// The PES packet of a frame gives back the NAL units of the frame, untouched and in their order,
/// each behind a start code. The parameter sets of a random access unit stand between them.
pub proof fn law_frame_gives_its_units(m: MuxerView, au: AccessUnitView)
    ensures
        ({
            let p = m.video_pes(au);
            let written = p.skip(9 + p[8]);
            exists|k: int| #[trigger]
                annexb::written_at(written, au, k, m.param_sets)
        }),
{
    let p = m.video_pes(au);
    pes::law_pes_round_trip(
        super::STREAM_ID_VIDEO,
        m.pts(au) as u64,
        Some(m.dts(au) as u64),
        au.written(Seq::empty(), m.param_sets),
    );
    annexb::law_units_are_kept(au, m.param_sets);
}

} // verus!
