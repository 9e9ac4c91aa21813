//! What the init segments and the first media segment of a source state.

use vstd::prelude::*;

use crate::clock::ClockState;
use crate::hevc::sps;
use crate::mp4::aac;
use crate::mp4::aac::AacConfig;
use crate::mp4::avcc;
use crate::mp4::dvcc;
use crate::mp4::hvcc;
use crate::mp4::hvcc::ParamSetsView;
use crate::mp4::sample;
use crate::mp4::sample::{parse_media_segment, ParsedSegment, SampleView};
use crate::mp4::tenc;
use crate::mp4::tenc::TrackEncryptionView;
use crate::mp4::{DoviConfig, ParamSets, TrackEncryption};
use crate::text;
use crate::ts;
use crate::ts::muxer::{MuxerView, TsMuxer};
use crate::ts::{AudioCodec, VideoCodec, VideoRange};

verus! {

/// Ticks of 90 kHz that every timestamp starts behind.
pub const START_BUFFER_90K: u64 = 90_000;

/// Ticks of audio in a second where nothing is stated.
pub const DEFAULT_AUDIO_TIMESCALE: u32 = 48_000;

/// What an optional `tenc` states.
pub open spec fn opt_tenc(t: Option<TrackEncryption>) -> Option<TrackEncryptionView> {
    match t {
        Some(x) => Some(x@),
        None => None,
    }
}

/// The codec that a lower-case list of codecs names.
pub open spec fn audio_codec_in(c: Seq<char>) -> AudioCodec {
    if text::contains(c, "ec-3"@) || text::contains(c, "ec3"@) {
        AudioCodec::Ec3
    } else if text::contains(c, "ac-3"@) || text::contains(c, "ac3"@) {
        AudioCodec::Ac3
    } else {
        AudioCodec::AacAdts
    }
}

/// The codec that a lower-case list of codecs names.
pub fn find_audio_codec(c: &[char]) -> (r: AudioCodec)
    ensures
        r == audio_codec_in(c@),
{
    if text::has(c, "ec-3") || text::has(c, "ec3") {
        AudioCodec::Ec3
    } else if text::has(c, "ac-3") || text::has(c, "ac3") {
        AudioCodec::Ac3
    } else {
        AudioCodec::AacAdts
    }
}

/// The audio codec that the codecs of a DASH track name.
pub fn detect_audio_codec(codecs: &str) -> (r: AudioCodec)
    ensures
        r == audio_codec_in(text::ascii_lowercase(codecs@)),
{
    let c: Vec<char> = text::to_chars(codecs);
    let l: Vec<char> = text::to_ascii_lower(c.as_slice());
    find_audio_codec(l.as_slice())
}

/// The parameter sets of an init segment.
pub open spec fn params_in(init: Seq<u8>, codec: VideoCodec) -> ParamSetsView {
    let found = match codec {
        VideoCodec::Hevc => hvcc::hvcc_in_init(init),
        VideoCodec::H264 => avcc::avcc_in_init(init),
    };
    match found {
        Some(p) => p,
        None => ParamSetsView::none(),
    }
}

/// The range of a video: that of Dolby Vision is PQ, others state theirs in the first sequence
/// parameter set.
pub open spec fn range_of(codec: VideoCodec, is_dv: bool, params: ParamSetsView) -> VideoRange {
    let stated = if params.sps.len() == 0 {
        None
    } else {
        match codec {
            VideoCodec::Hevc => sps::hevc_sps(params.sps[0]),
            VideoCodec::H264 => sps::h264_sps(params.sps[0]),
        }
    };
    if is_dv {
        VideoRange::Pq
    } else {
        match stated {
            Some(r) => r,
            None => VideoRange::Sdr,
        }
    }
}

/// The range of a video.
pub fn detect_video_range(codec: VideoCodec, is_dv: bool, params: &ParamSets) -> (r: VideoRange)
    ensures
        r == range_of(codec, is_dv, params@),
{
    if is_dv {
        return VideoRange::Pq;
    }
    if params.sps.len() > 0 {
        assert(params@.sps[0] == params.sps@[0]@);
        let first: &[u8] = params.sps[0].as_slice();
        let stated: Option<VideoRange> = match codec {
            VideoCodec::Hevc => sps::hevc_sps_range(first),
            VideoCodec::H264 => sps::h264_sps_range(first),
        };
        if let Some(r) = stated {
            return r;
        }
    }
    VideoRange::Sdr
}

/// What the init segment of a video states.
pub struct VideoInit {
    pub codec: VideoCodec,
    pub params: ParamSets,
    pub dovi: Option<DoviConfig>,
    pub range: VideoRange,
    pub tenc: Option<TrackEncryption>,
}

/// Reads the init segment of a video with these codecs.
pub fn read_video_init(init: &[u8], codecs: &str) -> (r: VideoInit)
    ensures
        r.codec == ts::video_codec_of(codecs@),
        r.params@ == params_in(init@, r.codec),
        r.dovi == dvcc::dovi_in_init(init@),
        r.range == range_of(r.codec, r.dovi is Some, r.params@),
        opt_tenc(r.tenc) == tenc::tenc_in_init(init@),
{
    let codec: VideoCodec = VideoCodec::from_codecs(codecs);
    let found: Option<ParamSets> = match codec {
        VideoCodec::Hevc => ParamSets::find_in_init(init),
        VideoCodec::H264 => avcc::find_avcc_in_init(init),
    };
    let params: ParamSets = match found {
        Some(p) => p,
        None => {
            let none = ParamSets { vps: Vec::new(), sps: Vec::new(), pps: Vec::new() };
            assert(none@ =~= ParamSetsView::none());
            none
        },
    };
    let dovi: Option<DoviConfig> = DoviConfig::find_in_init(init);
    let range: VideoRange = detect_video_range(codec, dovi.is_some(), &params);
    let tenc: Option<TrackEncryption> = TrackEncryption::find_in_init(init);
    VideoInit { codec, params, dovi, range, tenc }
}

/// What the init segment of an audio track states.
pub struct AudioInit {
    pub aac: Option<AacConfig>,
    pub tenc: Option<TrackEncryption>,
}

/// Reads the init segment of an audio track. The configuration is needed of AAC only.
pub fn read_audio_init(init: &[u8], codec: AudioCodec) -> (r: AudioInit)
    ensures
        r.aac == if codec == AudioCodec::AacAdts {
            aac::aac_in_init(init@)
        } else {
            None
        },
        opt_tenc(r.tenc) == tenc::tenc_in_init(init@),
{
    let aac: Option<AacConfig> = match codec {
        AudioCodec::AacAdts => AacConfig::find_in_init(init),
        _ => None,
    };
    let tenc: Option<TrackEncryption> = TrackEncryption::find_in_init(init);
    AudioInit { aac, tenc }
}

/// The smallest composition offset of the first `n` samples.
pub open spec fn least_cts(s: Seq<SampleView>, n: int) -> Option<i64>
    decreases n,
{
    if n <= 0 {
        None
    } else {
        let c = s[n - 1].cts_offset as i64;
        match least_cts(s, n - 1) {
            Some(m) if m <= c => Some(m),
            _ => Some(c),
        }
    }
}

/// The smallest composition offset of a media segment.
pub open spec fn least_cts_in(data: Seq<u8>) -> Option<i64> {
    match sample::segment_of(data, None) {
        Some(s) => least_cts(s.samples, s.samples.len() as int),
        None => None,
    }
}

/// The smallest composition offset of a media segment.
pub fn min_cts(data: &[u8]) -> (r: Option<i64>)
    ensures
        r == least_cts_in(data@),
{
    let p: ParsedSegment = match parse_media_segment(data) {
        Some(p) => p,
        None => return None,
    };
    let mut best: Option<i64> = None;
    for i in 0..p.samples.len()
        invariant
            best == least_cts(p@.samples, i as int),
    {
        assert(p@.samples[i as int] == p.samples@[i as int]@);
        let c: i64 = p.samples[i].cts_offset as i64;
        best = match best {
            Some(m) if m <= c => Some(m),
            _ => Some(c),
        };
    }
    best
}

/// Makes the muxer of a source. Its clock is moved by the smallest composition offset.
pub fn make_muxer(
    video: &VideoInit,
    audio_codec: Option<AudioCodec>,
    audio_timescale: u32,
    video_timescale: u32,
    least_cts: Option<i64>,
) -> (r: TsMuxer)
    requires
        video_timescale > 0,
        audio_timescale > 0,
    ensures
        r.wf(),
        r@ == (MuxerView {
            param_sets: video.params@.flat(),
            video_codec: video.codec,
            dovi: video.dovi,
            audio_codec,
            audio_timescale,
            clock: ClockState {
                cts_shift: match least_cts {
                    Some(c) if c < 0 => -c as u64,
                    _ => 0,
                },
                base_offset_90k: START_BUFFER_90K,
                timescale: video_timescale,
            },
            counters: Map::empty(),
        }),
{
    let least: i64 = match least_cts {
        Some(c) => c,
        None => 0,
    };
    let clock: ClockState = ClockState::new(least, video_timescale, START_BUFFER_90K);
    TsMuxer::new(&video.params, video.codec, video.dovi, audio_codec, audio_timescale, clock)
}

} // verus!
