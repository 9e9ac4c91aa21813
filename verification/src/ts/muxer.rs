//! The muxer: PAT and PMT, access units as PES packets in TS packets, the PCR, and the order of
//! video and audio.

use vstd::prelude::*;

use super::descriptor;
use super::packet;
use super::packet::{pack_pes, pack_section, ContinuityCounters};
use super::pat;
use super::pes;
use super::pmt;
use super::{
    AudioCodec, VideoCodec, PID_AUDIO, PID_PAT, PID_PMT, PID_VIDEO, STREAM_ID_AUDIO,
    STREAM_ID_VIDEO,
};
use crate::clock;
use crate::clock::ClockState;
use crate::hevc::annexb;
use crate::hevc::annexb::AccessUnit;
use crate::mp4::{DoviConfig, ParamSets};
use crate::wire;

verus! {

/// How much audio may lead video at the start of a segment, in 90 kHz.
pub const AUDIO_LEADS_VIDEO_TOLERANCE_90K: u64 = 22_500;

/// One audio frame with its timestamp in source ticks.
#[derive(Debug, Clone)]
pub struct AudioUnit {
    pub data: Vec<u8>,
    pub pts: u64,
}

/// What a value of [`AudioUnit`] holds.
#[verifier::ext_equal]
pub struct AudioUnitView {
    pub data: Seq<u8>,
    pub pts: u64,
}

impl View for AudioUnit {
    type V = AudioUnitView;

    open spec fn view(&self) -> AudioUnitView {
        AudioUnitView { data: self.data@, pts: self.pts }
    }
}

/// What a list of audio frames holds.
pub open spec fn audio_views(v: Seq<AudioUnit>) -> Seq<AudioUnitView> {
    v.map_values(|a: AudioUnit| a@)
}

/// What a list of access units holds.
pub open spec fn video_views(v: Seq<AccessUnit>) -> Seq<annexb::AccessUnitView> {
    v.map_values(|a: AccessUnit| a@)
}

pub struct TsMuxer {
    param_sets: Vec<Vec<u8>>,
    video_codec: VideoCodec,
    dovi: Option<DoviConfig>,
    audio_codec: Option<AudioCodec>,
    pub audio_timescale: u32,
    clock: ClockState,
    cc: ContinuityCounters,
}

/// What a value of [`TsMuxer`] holds.
pub struct MuxerView {
    pub param_sets: Seq<Seq<u8>>,
    pub video_codec: VideoCodec,
    pub dovi: Option<DoviConfig>,
    pub audio_codec: Option<AudioCodec>,
    pub audio_timescale: u32,
    pub clock: ClockState,
    pub counters: Map<u16, u8>,
}

impl View for TsMuxer {
    type V = MuxerView;

    closed spec fn view(&self) -> MuxerView {
        MuxerView {
            param_sets: wire::views(self.param_sets@),
            video_codec: self.video_codec,
            dovi: self.dovi,
            audio_codec: self.audio_codec,
            audio_timescale: self.audio_timescale,
            clock: self.clock,
            counters: self.cc@,
        }
    }
}

/// Bytes, and the continuity counters behind them.
pub struct Muxed {
    pub bytes: Seq<u8>,
    pub counters: Map<u16, u8>,
}

impl MuxerView {
    /// The decode timestamp of a frame.
    pub open spec fn dts(self, au: annexb::AccessUnitView) -> int {
        clock::on_circle(self.clock.dts_line(au.dts as int))
    }

    /// The presentation timestamp of a frame.
    pub open spec fn pts(self, au: annexb::AccessUnitView) -> int {
        clock::on_circle(self.clock.pts_line(au.dts as int, au.cts_offset as int))
    }

    /// The timestamp of an audio frame before the segment's offset.
    pub open spec fn bare_audio_pts(self, au: AudioUnitView) -> int {
        clock::on_circle(self.clock.audio_line(au.pts as int, self.audio_timescale as int))
    }

    /// The timestamp of an audio frame in a segment with the offset `offset`.
    pub open spec fn audio_pts(self, au: AudioUnitView, offset: int) -> int {
        clock::on_circle(self.bare_audio_pts(au) + offset)
    }

    /// How far the audio of a segment is moved: onto the first frame, where it leads that by more
    /// than the tolerance.
    pub open spec fn audio_offset(
        self,
        video: Seq<annexb::AccessUnitView>,
        audio: Seq<AudioUnitView>,
    ) -> int {
        if video.len() == 0 || audio.len() == 0 {
            0
        } else {
            let v = self.pts(video[0]);
            let a = self.bare_audio_pts(audio[0]);
            if a + AUDIO_LEADS_VIDEO_TOLERANCE_90K < v {
                v - a
            } else {
                0
            }
        }
    }

    /// The PCR of a frame: its decode timestamp without the start buffer.
    pub open spec fn pcr(self, au: annexb::AccessUnitView) -> u64 {
        let d = self.dts(au);
        let b = self.clock.base_offset_90k;
        (if b < d {
            d - b
        } else {
            0
        }) as u64
    }

    /// The PES packet of a frame.
    pub open spec fn video_pes(self, au: annexb::AccessUnitView) -> Seq<u8> {
        pes::pes_packet(
            STREAM_ID_VIDEO,
            self.pts(au),
            Some(self.dts(au) as u64),
            au.written(Seq::empty(), self.param_sets),
        )
    }

    /// The PES packet of an audio frame.
    pub open spec fn audio_pes(self, au: AudioUnitView, offset: int) -> Seq<u8> {
        pes::pes_packet(STREAM_ID_AUDIO, self.audio_pts(au, offset), None, au.data)
    }

    /// The packets of a frame.
    pub open spec fn video_packets(
        self,
        au: annexb::AccessUnitView,
        random_access: bool,
        counters: Map<u16, u8>,
    ) -> Muxed {
        let p = self.video_pes(au);
        let pcr = Some(self.pcr(au));
        Muxed {
            bytes: packet::pes_ts_packets(
                PID_VIDEO,
                p,
                0,
                pcr,
                random_access,
                packet::counter(counters, PID_VIDEO),
            ),
            counters: packet::advanced(
                counters,
                PID_VIDEO,
                packet::packet_count(p.len() as int, packet::first_room(pcr, random_access)) as int,
            ),
        }
    }

    /// The packets of an audio frame.
    pub open spec fn audio_packets(
        self,
        au: AudioUnitView,
        offset: int,
        counters: Map<u16, u8>,
    ) -> Muxed {
        let p = self.audio_pes(au, offset);
        Muxed {
            bytes: packet::pes_ts_packets(
                PID_AUDIO,
                p,
                0,
                None,
                false,
                packet::counter(counters, PID_AUDIO),
            ),
            counters: packet::advanced(
                counters,
                PID_AUDIO,
                packet::packet_count(p.len() as int, 184) as int,
            ),
        }
    }

    /// Whether frame `vi` goes before audio frame `ai`: the first frame goes first of all, the
    /// others by their timestamps.
    pub open spec fn video_goes_first(
        self,
        video: Seq<annexb::AccessUnitView>,
        audio: Seq<AudioUnitView>,
        vi: int,
        ai: int,
        offset: int,
    ) -> bool {
        &&& vi < video.len()
        &&& ai >= audio.len() || vi == 0 || self.dts(video[vi]) <= self.audio_pts(audio[ai], offset)
    }

    /// The packets of the frames from `vi` and `ai` on.
    pub open spec fn interleaved(
        self,
        video: Seq<annexb::AccessUnitView>,
        audio: Seq<AudioUnitView>,
        vi: int,
        ai: int,
        offset: int,
        counters: Map<u16, u8>,
    ) -> Muxed
        decreases (video.len() - vi) + (audio.len() - ai),
    {
        if vi < 0 || ai < 0 || vi > video.len() || ai > audio.len() || (vi == video.len() && ai
            == audio.len()) {
            Muxed { bytes: Seq::empty(), counters }
        } else if self.video_goes_first(video, audio, vi, ai, offset) {
            let one = self.video_packets(video[vi], vi == 0 || video[vi].is_irap, counters);
            let rest = self.interleaved(video, audio, vi + 1, ai, offset, one.counters);
            Muxed { bytes: one.bytes + rest.bytes, counters: rest.counters }
        } else {
            let one = self.audio_packets(audio[ai], offset, counters);
            let rest = self.interleaved(video, audio, vi, ai + 1, offset, one.counters);
            Muxed { bytes: one.bytes + rest.bytes, counters: rest.counters }
        }
    }

    /// The PMT of this muxer.
    pub open spec fn pmt(self) -> Seq<u8> {
        pmt::pmt_section(
            PID_VIDEO,
            self.video_codec,
            match self.audio_codec {
                Some(c) => Some((PID_AUDIO, c)),
                None => None,
            },
            self.dovi,
        )
    }

    /// A segment: PAT and PMT, then the frames in order.
    pub open spec fn segment(
        self,
        video: Seq<annexb::AccessUnitView>,
        audio: Seq<AudioUnitView>,
    ) -> Muxed {
        let c1 = packet::advanced(self.counters, PID_PAT, 1);
        let c2 = packet::advanced(c1, PID_PMT, 1);
        let body = self.interleaved(video, audio, 0, 0, self.audio_offset(video, audio), c2);
        Muxed {
            bytes: packet::section_packet(
                PID_PAT,
                pat::pat_section(PID_PMT),
                packet::counter(self.counters, PID_PAT),
            ) + packet::section_packet(PID_PMT, self.pmt(), packet::counter(c1, PID_PMT))
                + body.bytes,
            counters: body.counters,
        }
    }
}

/// Frames are decoded as far apart as their decode times are, to one tick, and presented behind
/// their decoding by composition offset and shift, to one tick, as long as no timestamp wraps.
pub proof fn law_frames_are_timed(
    m: MuxerView,
    a: annexb::AccessUnitView,
    b: annexb::AccessUnitView,
)
    requires
        m.clock.wf(),
        a.dts <= b.dts,
        0 <= b.cts_offset + m.clock.cts_shift,
        m.clock.pts_line(b.dts as int, b.cts_offset as int) < 0x2_0000_0000,
    ensures
        m.dts(a) <= m.dts(b),
        clock::within_a_tick(m.dts(b) - m.dts(a), b.dts - a.dts, m.clock.timescale as int),
        clock::within_a_tick(
            m.pts(b) - m.dts(b),
            b.cts_offset + m.clock.cts_shift,
            m.clock.timescale as int,
        ),
        m.dts(b) <= m.pts(b),
{
    let s = m.clock.timescale as int;
    let shifted = b.cts_offset + m.clock.cts_shift;
    clock::law_delay_is_composition_offset(m.clock, b.dts as int, b.cts_offset as int);
    clock::law_rescale_is_monotone(a.dts as int, b.dts as int, s);
    clock::law_rescale_error_below_one_tick(a.dts as int, s);
    clock::law_rescale_error_below_one_tick(b.dts as int, s);
    clock::law_decode_time_is_kept(m.clock, a.dts as int);
    assert(shifted * 90_000 / s >= 0) by (nonlinear_arith)
        requires
            shifted >= 0,
            s > 0,
    ;
    let x = clock::to_90k(a.dts as int, s);
    let y = clock::to_90k(b.dts as int, s);
    assert((x + 1) * s == x * s + s) by (nonlinear_arith);
    assert((y + 1) * s == y * s + s) by (nonlinear_arith);
    assert((y - x) * s == y * s - x * s) by (nonlinear_arith);
}

/// Audio does not lead the first frame by more than the tolerance: where it would, its first frame
/// is presented with that frame; else audio stays where it is.
pub proof fn law_audio_does_not_lead(
    m: MuxerView,
    video: Seq<annexb::AccessUnitView>,
    audio: Seq<AudioUnitView>,
)
    requires
        video.len() > 0,
        audio.len() > 0,
    ensures
        ({
            let offset = m.audio_offset(video, audio);
            let first = m.audio_pts(audio[0], offset);
            let bare = m.bare_audio_pts(audio[0]);
            let v = m.pts(video[0]);
            &&& first + AUDIO_LEADS_VIDEO_TOLERANCE_90K >= v
            &&& bare + AUDIO_LEADS_VIDEO_TOLERANCE_90K < v ==> first == v
            &&& bare + AUDIO_LEADS_VIDEO_TOLERANCE_90K >= v ==> first == bare && offset == 0
        }),
{
}

/// The audio frames of a segment stay in step with each other: all are moved by the same.
pub proof fn law_audio_is_moved_together(m: MuxerView, a: AudioUnitView, b: AudioUnitView, offset: int)
    requires
        0 <= m.bare_audio_pts(a) + offset < 0x2_0000_0000,
        0 <= m.bare_audio_pts(b) + offset < 0x2_0000_0000,
    ensures
        m.audio_pts(b, offset) - m.audio_pts(a, offset) == m.bare_audio_pts(b) - m.bare_audio_pts(
            a,
        ),
{
}

/// The clock of the program runs ahead of decoding by the start buffer.
pub proof fn law_clock_leads_decoding(m: MuxerView, au: annexb::AccessUnitView)
    requires
        m.clock.wf(),
    ensures
        m.pcr(au) <= m.dts(au),
        m.clock.base_offset_90k <= m.dts(au) ==> m.dts(au) - m.pcr(au) == m.clock.base_offset_90k,
        m.dts(au) <= m.clock.base_offset_90k ==> m.pcr(au) == 0,
{
}

/// A stream made of whole packets that start with the sync byte.
pub open spec fn is_packets(stream: Seq<u8>) -> bool {
    &&& stream.len() % 188 == 0
    &&& forall|k: int|
        0 <= k < stream.len() / 188 ==> #[trigger] stream[188 * k] == packet_start()
}

/// The sync byte.
pub open spec fn packet_start() -> u8 {
    0x47
}

proof fn lemma_packets_join(a: Seq<u8>, b: Seq<u8>)
    requires
        is_packets(a),
        is_packets(b),
    ensures
        is_packets(a + b),
{
    let s = a + b;
    let n = a.len() / 188;
    assert forall|k: int| 0 <= k < s.len() / 188 implies #[trigger] s[188 * k]
        == packet_start() by {
        if k < n {
            assert(a[188 * k] == packet_start());
        } else {
            assert(b[188 * (k - n)] == packet_start());
        }
    }
}

proof fn lemma_counter_range(counters: Map<u16, u8>, pid: u16, n: int)
    requires
        forall|q: u16| #[trigger] counters.dom().contains(q) ==> counters[q] < 16,
    ensures
        0 <= packet::counter(counters, pid) < 16,
        forall|q: u16| #[trigger]
            packet::advanced(counters, pid, n).dom().contains(q) ==> packet::advanced(
                counters,
                pid,
                n,
            )[q] < 16,
{
    assert(counters.dom().contains(pid) ==> counters[pid] < 16);
    assert forall|q: u16| #[trigger]
        packet::advanced(counters, pid, n).dom().contains(q) implies packet::advanced(
        counters,
        pid,
        n,
    )[q] < 16 by {
        if q != pid || n == 0 {
            assert(counters.dom().contains(q));
        }
    }
}

proof fn lemma_pes_packets(
    pid: u16,
    p: Seq<u8>,
    pcr: Option<u64>,
    random_access: bool,
    cc: int,
)
    requires
        0 <= cc < 16,
    ensures
        is_packets(packet::pes_ts_packets(pid, p, 0, pcr, random_access, cc)),
{
    let s = packet::pes_ts_packets(pid, p, 0, pcr, random_access, cc);
    packet::law_packets_carry_pes(pid, p, 0, pcr, random_access, cc);
    let n = packet::packet_count(p.len() as int, packet::first_room(pcr, random_access));
    assert(s.len() == 188 * n);
    assert forall|k: int| 0 <= k < s.len() / 188 implies #[trigger] s[188 * k]
        == packet_start() by {
        assert(s[188 * k] == 0x47);
    }
}

proof fn lemma_interleaved_is_packets(
    m: MuxerView,
    video: Seq<annexb::AccessUnitView>,
    audio: Seq<AudioUnitView>,
    vi: int,
    ai: int,
    offset: int,
    counters: Map<u16, u8>,
)
    requires
        0 <= vi <= video.len(),
        0 <= ai <= audio.len(),
        forall|q: u16| #[trigger] counters.dom().contains(q) ==> counters[q] < 16,
    ensures
        is_packets(m.interleaved(video, audio, vi, ai, offset, counters).bytes),
    decreases (video.len() - vi) + (audio.len() - ai),
{
    if vi == video.len() && ai == audio.len() {
    } else if m.video_goes_first(video, audio, vi, ai, offset) {
        let ra = vi == 0 || video[vi].is_irap;
        let p = m.video_pes(video[vi]);
        let one = m.video_packets(video[vi], ra, counters);
        lemma_counter_range(
            counters,
            PID_VIDEO,
            packet::packet_count(
                p.len() as int,
                packet::first_room(Some(m.pcr(video[vi])), ra),
            ) as int,
        );
        lemma_pes_packets(
            PID_VIDEO,
            p,
            Some(m.pcr(video[vi])),
            ra,
            packet::counter(counters, PID_VIDEO),
        );
        lemma_interleaved_is_packets(m, video, audio, vi + 1, ai, offset, one.counters);
        lemma_packets_join(
            one.bytes,
            m.interleaved(video, audio, vi + 1, ai, offset, one.counters).bytes,
        );
    } else {
        let p = m.audio_pes(audio[ai], offset);
        let one = m.audio_packets(audio[ai], offset, counters);
        lemma_counter_range(
            counters,
            PID_AUDIO,
            packet::packet_count(p.len() as int, 184) as int,
        );
        lemma_pes_packets(PID_AUDIO, p, None, false, packet::counter(counters, PID_AUDIO));
        lemma_interleaved_is_packets(m, video, audio, vi, ai + 1, offset, one.counters);
        lemma_packets_join(
            one.bytes,
            m.interleaved(video, audio, vi, ai + 1, offset, one.counters).bytes,
        );
    }
}

/// A segment is made of whole packets of 188 bytes, each with the sync byte, and starts with the
/// PAT and the PMT.
pub proof fn law_segment_is_packets(
    m: MuxerView,
    video: Seq<annexb::AccessUnitView>,
    audio: Seq<AudioUnitView>,
)
    requires
        forall|q: u16| #[trigger] m.counters.dom().contains(q) ==> m.counters[q] < 16,
    ensures
        is_packets(m.segment(video, audio).bytes),
        m.segment(video, audio).bytes.take(188) == packet::section_packet(
            PID_PAT,
            pat::pat_section(PID_PMT),
            packet::counter(m.counters, PID_PAT),
        ),
        m.segment(video, audio).bytes.subrange(188, 376) == packet::section_packet(
            PID_PMT,
            m.pmt(),
            packet::counter(m.counters, PID_PMT),
        ),
{
    let c1 = packet::advanced(m.counters, PID_PAT, 1);
    let c2 = packet::advanced(c1, PID_PMT, 1);
    lemma_counter_range(m.counters, PID_PAT, 1);
    lemma_counter_range(c1, PID_PMT, 1);
    let a = packet::section_packet(
        PID_PAT,
        pat::pat_section(PID_PMT),
        packet::counter(m.counters, PID_PAT),
    );
    let b = packet::section_packet(PID_PMT, m.pmt(), packet::counter(c1, PID_PMT));
    assert(a.len() == 188 && a[0] == 0x47);
    assert(b.len() == 188 && b[0] == 0x47);
    assert(is_packets(a));
    assert(is_packets(b));
    lemma_interleaved_is_packets(m, video, audio, 0, 0, m.audio_offset(video, audio), c2);
    lemma_packets_join(a, b);
    let body = m.interleaved(video, audio, 0, 0, m.audio_offset(video, audio), c2).bytes;
    lemma_packets_join(a + b, body);
    assert((a + b + body).take(188) =~= a);
    assert((a + b + body).subrange(188, 376) =~= b);
}

impl TsMuxer {
    /// Both timescales have a length.
    pub closed spec fn wf(&self) -> bool {
        &&& self.clock.wf()
        &&& self.audio_timescale > 0
        &&& self.cc.wf()
    }

    pub fn new(
        params: &ParamSets,
        video_codec: VideoCodec,
        dovi: Option<DoviConfig>,
        audio_codec: Option<AudioCodec>,
        audio_timescale: u32,
        clock: ClockState,
    ) -> (r: Self)
        ensures
            r@.param_sets == params@.flat(),
            r@.video_codec == video_codec,
            r@.dovi == dovi,
            r@.audio_codec == audio_codec,
            r@.audio_timescale == audio_timescale,
            r@.clock == clock,
            r@.counters == Map::<u16, u8>::empty(),
            r.wf() == (clock.wf() && audio_timescale > 0),
    {
        TsMuxer {
            param_sets: params.flat(),
            video_codec,
            dovi,
            audio_codec,
            audio_timescale,
            clock,
            cc: ContinuityCounters::new(),
        }
    }

    /// The Dolby Vision descriptor of the PMT, where there is one.
    pub fn dovi_descriptor_bytes(&self) -> (r: Option<Vec<u8>>)
        ensures
            match r {
                None => self@.dovi is None,
                Some(b) => self@.dovi matches Some(c) && b@ == descriptor::dovi_descriptor(c),
            },
    {
        match &self.dovi {
            Some(c) => Some(descriptor::dolby_vision_descriptor(c)),
            None => None,
        }
    }

    /// How the audio is coded.
    pub fn audio_kind(&self) -> (r: Option<AudioCodec>)
        ensures
            r == self@.audio_codec,
    {
        self.audio_codec
    }

    /// Ticks of audio in a second.
    pub fn audio_ticks(&self) -> (r: u32)
        ensures
            r == self@.audio_timescale,
    {
        self.audio_timescale
    }

    fn audio_pts90(&self, au: &AudioUnit, segment_offset_90k: u64) -> (r: u64)
        requires
            self.wf(),
            segment_offset_90k < clock::PTS_MODULO,
        ensures
            r == self@.audio_pts(au@, segment_offset_90k as int),
            r < clock::PTS_MODULO,
    {
        clock::wrap33(self.clock.audio_pts(au.pts, self.audio_timescale) + segment_offset_90k)
    }

    fn segment_audio_offset_90k(&self, video: &[AccessUnit], audio: &[AudioUnit]) -> (r: u64)
        requires
            self.wf(),
        ensures
            r == self@.audio_offset(video_views(video@), audio_views(audio@)),
            r < clock::PTS_MODULO,
    {
        if video.len() == 0 || audio.len() == 0 {
            return 0;
        }
        let first_video: &AccessUnit = &video[0];
        let first_audio: &AudioUnit = &audio[0];
        assert(video_views(video@)[0] == first_video@);
        assert(audio_views(audio@)[0] == first_audio@);
        let v: u64 = self.clock.pts_dts(first_video.dts, first_video.cts_offset).0;
        let a: u64 = self.clock.audio_pts(first_audio.pts, self.audio_timescale);
        if a + AUDIO_LEADS_VIDEO_TOLERANCE_90K < v {
            v - a
        } else {
            0
        }
    }

    /// Writes one segment: PAT and PMT, then video and audio in the order of their timestamps.
    pub fn mux_segment(&mut self, video: &[AccessUnit], audio: &[AudioUnit]) -> (r: Vec<u8>)
        requires
            old(self).wf(),
        ensures
            r@ == old(self)@.segment(video_views(video@), audio_views(audio@)).bytes,
            final(self)@ == (MuxerView {
                counters: old(self)@.segment(video_views(video@), audio_views(audio@)).counters,
                ..old(self)@
            }),
            final(self).wf(),
    {
        let ghost m = self@;
        let ghost vs = video_views(video@);
        let ghost aus = audio_views(audio@);
        let mut out: Vec<u8> = Vec::new();
        let pat_bytes: Vec<u8> = pat::build_pat_section(PID_PMT);
        let pat_packet: Vec<u8> = pack_section(PID_PAT, pat_bytes.as_slice(), &mut self.cc);
        wire::append(&mut out, pat_packet.as_slice());
        let audio_pmt: Option<(u16, AudioCodec)> = match self.audio_codec {
            Some(c) => Some((PID_AUDIO, c)),
            None => None,
        };
        let pmt_bytes: Vec<u8> = pmt::build_pmt_section(
            PID_VIDEO,
            self.video_codec,
            audio_pmt,
            self.dovi.as_ref(),
        );
        let pmt_packet: Vec<u8> = pack_section(PID_PMT, pmt_bytes.as_slice(), &mut self.cc);
        wire::append(&mut out, pmt_packet.as_slice());
        let offset: u64 = self.segment_audio_offset_90k(video, audio);
        let ghost head = out@;
        let ghost body = m.interleaved(vs, aus, 0, 0, offset as int, self.cc@);
        proof {
            assert(pmt_bytes@ == m.pmt());
            assert(head =~= pat_packet@ + pmt_packet@);
            assert(head + body.bytes == m.segment(vs, aus).bytes);
            assert(out@ + body.bytes =~= head + body.bytes);
        }
        let mut vi: usize = 0;
        let mut ai: usize = 0;
        while vi < video.len() || ai < audio.len()
            invariant
                self.wf(),
                vi <= video.len(),
                ai <= audio.len(),
                vs == video_views(video@),
                aus == audio_views(audio@),
                offset < clock::PTS_MODULO,
                self@ == (MuxerView { counters: self.cc@, ..m }),
                out@ + m.interleaved(vs, aus, vi as int, ai as int, offset as int, self.cc@).bytes
                    == head + body.bytes,
                m.interleaved(vs, aus, vi as int, ai as int, offset as int, self.cc@).counters
                    == body.counters,
            decreases (video.len() - vi) + (audio.len() - ai),
        {
            let write_video: bool = if vi >= video.len() {
                false
            } else if ai >= audio.len() || vi == 0 {
                true
            } else {
                let v: &AccessUnit = &video[vi];
                let a: &AudioUnit = &audio[ai];
                assert(vs[vi as int] == v@);
                assert(aus[ai as int] == a@);
                self.clock.pts_dts(v.dts, v.cts_offset).1 <= self.audio_pts90(a, offset)
            };
            assert(write_video == m.video_goes_first(
                vs,
                aus,
                vi as int,
                ai as int,
                offset as int,
            ));
            let ghost before = out@;
            let ghost counters = self.cc@;
            if write_video {
                let au: &AccessUnit = &video[vi];
                assert(vs[vi as int] == au@);
                let (pts90, dts90): (u64, u64) = self.clock.pts_dts(au.dts, au.cts_offset);
                let mut es: Vec<u8> = Vec::new();
                au.write_annexb(&mut es, self.param_sets.as_slice());
                let p: Vec<u8> = pes::build_pes(
                    STREAM_ID_VIDEO,
                    pts90,
                    Some(dts90),
                    es.as_slice(),
                );
                assert(p@ == m.video_pes(au@));
                let base: u64 = self.clock.base_offset_90k;
                let pcr: u64 = if base < dts90 {
                    dts90 - base
                } else {
                    0
                };
                let rai: bool = vi == 0 || au.is_irap;
                pack_pes(PID_VIDEO, p.as_slice(), Some(pcr), rai, &mut self.cc, &mut out);
                proof {
                    let one = m.video_packets(au@, rai, counters);
                    let rest = m.interleaved(
                        vs,
                        aus,
                        vi + 1,
                        ai as int,
                        offset as int,
                        one.counters,
                    );
                    assert(out@ == before + one.bytes);
                    assert(out@ + rest.bytes =~= before + (one.bytes + rest.bytes));
                }
                vi = vi + 1;
            } else {
                let au: &AudioUnit = &audio[ai];
                assert(aus[ai as int] == au@);
                let pts90: u64 = self.audio_pts90(au, offset);
                let p: Vec<u8> = pes::build_pes(STREAM_ID_AUDIO, pts90, None, au.data.as_slice());
                assert(p@ == m.audio_pes(au@, offset as int));
                pack_pes(PID_AUDIO, p.as_slice(), None, false, &mut self.cc, &mut out);
                proof {
                    let one = m.audio_packets(au@, offset as int, counters);
                    let rest = m.interleaved(
                        vs,
                        aus,
                        vi as int,
                        ai + 1,
                        offset as int,
                        one.counters,
                    );
                    assert(out@ == before + one.bytes);
                    assert(out@ + rest.bytes =~= before + (one.bytes + rest.bytes));
                }
                ai = ai + 1;
            }
        }
        assert(out@ =~= head + body.bytes);
        out
    }
}

} // verus!
