//! The program map table: a video stream, with the Dolby Vision descriptor where it applies, and
//! an audio stream where there is one.

use vstd::prelude::*;

use super::descriptor;
use super::pat;
use super::{AudioCodec, VideoCodec, PID_VIDEO};
use crate::mp4::DoviConfig;
use crate::wire;

verus! {

/// One elementary stream.
pub open spec fn es_entry(stream_type: u8, pid: u16, descriptors: Seq<u8>) -> Seq<u8> {
    seq![stream_type] + pat::pid_field(pid) + wire::be16_bytes(
        0xF000 + descriptors.len() as int % 0x1000,
    ) + descriptors
}

/// The PMT of a program whose PCR is on the video PID.
pub open spec fn pmt_section(
    video_pid: u16,
    video_codec: VideoCodec,
    audio: Option<(u16, AudioCodec)>,
    dovi: Option<DoviConfig>,
) -> Seq<u8> {
    let head = seq![0u8, 1u8, 0xC1u8, 0u8, 0u8] + pat::pid_field(video_pid) + seq![0xF0u8, 0u8];
    let video = es_entry(
        video_codec.stream_type_of(),
        video_pid,
        match dovi {
            Some(c) => descriptor::dovi_descriptor(c),
            None => Seq::empty(),
        },
    );
    let sound = match audio {
        Some((pid, codec)) => es_entry(codec.stream_type_of(), pid, Seq::empty()),
        None => Seq::empty(),
    };
    pat::section(0x02, head + video + sound)
}

fn push_es(s: &mut Vec<u8>, stream_type: u8, pid: u16, descriptors: &[u8])
    ensures
        final(s)@ == old(s)@ + es_entry(stream_type, pid, descriptors@),
{
    s.push(stream_type);
    pat::push_pid(s, pid);
    wire::push_be16(s, 0xF000 + (descriptors.len() % 0x1000) as u16);
    wire::append(s, descriptors);
    assert(s@ =~= old(s)@ + es_entry(stream_type, pid, descriptors@));
}

/// Writes the PMT, without a packet header.
pub fn build_pmt_section(
    video_pid: u16,
    video_codec: VideoCodec,
    audio: Option<(u16, AudioCodec)>,
    dovi: Option<&DoviConfig>,
) -> (r: Vec<u8>)
    ensures
        r@ == pmt_section(
            video_pid,
            video_codec,
            audio,
            match dovi {
                Some(c) => Some(*c),
                None => None,
            },
        ),
{
    let mut body: Vec<u8> = Vec::new();
    wire::push_be16(&mut body, 1);
    body.push(0xC1);
    body.push(0);
    body.push(0);
    pat::push_pid(&mut body, video_pid);
    wire::push_be16(&mut body, 0xF000);
    let ghost head = seq![0u8, 1u8, 0xC1u8, 0u8, 0u8] + pat::pid_field(video_pid) + seq![
        0xF0u8,
        0u8,
    ];
    assert(body@ =~= head);
    let video_desc: Vec<u8> = match dovi {
        Some(cfg) => descriptor::dolby_vision_descriptor(cfg),
        None => Vec::new(),
    };
    push_es(&mut body, video_codec.stream_type(), video_pid, video_desc.as_slice());
    let ghost with_video = body@;
    if let Some((apid, codec)) = audio {
        let none: Vec<u8> = Vec::new();
        push_es(&mut body, codec.stream_type(), apid, none.as_slice());
    } else {
        assert(body@ =~= with_video + Seq::<u8>::empty());
    }
    pat::build_section(0x02, body.as_slice())
}

/// The PID of the PCR.
pub const DEFAULT_PCR_PID: u16 = PID_VIDEO;

/// A stream as a receiver finds it in a PMT.
pub struct Listed {
    pub stream_type: u8,
    pub pid: int,
    pub descriptors: Seq<u8>,
}

/// The streams that a receiver finds in the bytes of a PMT from `p` up to `end`.
pub open spec fn listed_from(s: Seq<u8>, p: int, end: int) -> Seq<Listed>
    decreases end - p,
{
    if p < 0 || p + 5 > end || end > s.len() {
        Seq::empty()
    } else {
        let n = wire::be16_at(s, p + 3) % 0x1000;
        let one = Listed {
            stream_type: s[p],
            pid: wire::be16_at(s, p + 1) % 0x2000,
            descriptors: s.subrange(p + 5, p + 5 + n),
        };
        if p + 5 + n > end {
            Seq::empty()
        } else {
            seq![one] + listed_from(s, p + 5 + n, end)
        }
    }
}

proof fn lemma_be16_in(d: Seq<u8>, p: int, v: int)
    requires
        0 <= p,
        p + 2 <= d.len(),
        0 <= v <= u16::MAX,
        d.subrange(p, p + 2) == wire::be16_bytes(v),
    ensures
        wire::be16_at(d, p) == v,
{
    wire::law_be16_round_trip(v as u16);
    let b = d.subrange(p, p + 2);
    assert(b[0] == d[p] && b[1] == d[p + 1]);
}

proof fn lemma_entry_is_listed(s: Seq<u8>, p: int, end: int, stream_type: u8, pid: u16, d: Seq<u8>)
    requires
        0 <= p,
        p + 5 + d.len() <= end <= s.len(),
        d.len() < 0x1000,
        s.subrange(p, p + 5 + d.len()) == es_entry(stream_type, pid, d),
    ensures
        listed_from(s, p, end) == seq![
            Listed { stream_type, pid: pid as int % 0x2000, descriptors: d },
        ] + listed_from(s, p + 5 + d.len(), end),
{
    let e = es_entry(stream_type, pid, d);
    let own = s.subrange(p, p + 5 + d.len());
    assert(own[0] == s[p]);
    assert(e[0] == stream_type);
    assert(e.subrange(1, 3) =~= pat::pid_field(pid));
    assert(e.subrange(3, 5) =~= wire::be16_bytes(0xF000 + d.len() as int));
    assert(s.subrange(p + 1, p + 3) =~= own.subrange(1, 3));
    assert(s.subrange(p + 3, p + 5) =~= own.subrange(3, 5));
    lemma_be16_in(s, p + 1, 0xE000 + pid as int % 0x2000);
    lemma_be16_in(s, p + 3, 0xF000 + d.len() as int);
    assert(s.subrange(p + 5, p + 5 + d.len()) =~= own.skip(5));
    assert(e.skip(5) =~= d);
}

/// A receiver finds in a PMT the clock on the video PID, the video stream with the type of its
/// codec and the Dolby Vision descriptor where there is one, and behind it the audio stream where
/// there is one.
pub proof fn law_pmt_lists_streams(
    video_pid: u16,
    video_codec: VideoCodec,
    audio: Option<(u16, AudioCodec)>,
    dovi: Option<DoviConfig>,
)
    requires
        dovi matches Some(c) ==> descriptor::dovi_descriptor(c).len() < 0x1000,
    ensures
        ({
            let s = pmt_section(video_pid, video_codec, audio, dovi);
            let video = Listed {
                stream_type: match video_codec {
                    VideoCodec::Hevc => 0x24,
                    VideoCodec::H264 => 0x1B,
                },
                pid: video_pid as int % 0x2000,
                descriptors: match dovi {
                    Some(c) => descriptor::dovi_descriptor(c),
                    None => Seq::empty(),
                },
            };
            &&& s[0] == 2
            &&& wire::be16_at(s, 8) % 0x2000 == video_pid as int % 0x2000
            &&& wire::be16_at(s, 10) % 0x1000 == 0
            &&& listed_from(s, 12, s.len() - 4) == match audio {
                Some((pid, codec)) => seq![
                    video,
                    Listed {
                        stream_type: match codec {
                            AudioCodec::Ac3 => 0x81,
                            AudioCodec::Ec3 => 0x87,
                            AudioCodec::AacAdts => 0x0F,
                        },
                        pid: pid as int % 0x2000,
                        descriptors: Seq::empty(),
                    },
                ],
                None => seq![video],
            }
        }),
{
    let s = pmt_section(video_pid, video_codec, audio, dovi);
    let d = match dovi {
        Some(c) => descriptor::dovi_descriptor(c),
        None => Seq::empty(),
    };
    let none = Seq::<u8>::empty();
    let v = es_entry(video_codec.stream_type_of(), video_pid, d);
    let end = s.len() - 4;
    let after = 17 + d.len() as int;
    assert(s.subrange(8, 10) =~= pat::pid_field(video_pid));
    lemma_be16_in(s, 8, 0xE000 + video_pid as int % 0x2000);
    assert(wire::be16_bytes(0xF000) =~= seq![0xF0u8, 0u8]);
    assert(s.subrange(10, 12) =~= wire::be16_bytes(0xF000));
    lemma_be16_in(s, 10, 0xF000);
    assert(s.subrange(12, after) =~= v);
    lemma_entry_is_listed(s, 12, end, video_codec.stream_type_of(), video_pid, d);
    if let Some((pid, codec)) = audio {
        assert(s.subrange(after, after + 5) =~= es_entry(codec.stream_type_of(), pid, none));
        lemma_entry_is_listed(s, after, end, codec.stream_type_of(), pid, none);
        assert(listed_from(s, after + 5, end) =~= Seq::<Listed>::empty());
    } else {
        assert(listed_from(s, after, end) =~= Seq::<Listed>::empty());
    }
}

} // verus!
