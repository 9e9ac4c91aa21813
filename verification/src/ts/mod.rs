//! MPEG-TS: decrypted access units become packets of 188 bytes.

use vstd::prelude::*;

pub mod bitwriter;
pub mod crc32;
pub mod demux;
pub mod descriptor;
pub mod muxer;
pub mod packet;
pub mod pat;
pub mod pes;
pub mod pmt;

verus! {

pub const TS_PACKET_SIZE: usize = 188;

pub const SYNC_BYTE: u8 = 0x47;

pub const PID_PAT: u16 = 0x0000;

pub const PID_PMT: u16 = 0x1000;

/// The video, which also carries the PCR.
pub const PID_VIDEO: u16 = 0x0100;

pub const PID_AUDIO: u16 = 0x0101;

pub const PID_NULL: u16 = 0x1FFF;

pub const STREAM_TYPE_HEVC: u8 = 0x24;

pub const STREAM_TYPE_H264: u8 = 0x1B;

pub const STREAM_TYPE_AC3: u8 = 0x81;

pub const STREAM_TYPE_EC3: u8 = 0x87;

pub const STREAM_TYPE_AAC_ADTS: u8 = 0x0F;

pub const STREAM_ID_VIDEO: u8 = 0xE0;

pub const STREAM_ID_AUDIO: u8 = 0xC0;

/// How video is coded.
#[derive(Debug, Clone, Copy, PartialEq, Eq, Structural)]
pub enum VideoCodec {
    Hevc,
    H264,
}

/// The codec that a `codecs` attribute names: H.264 where it starts with `avc` or `h264`.
pub open spec fn video_codec_of(codecs: Seq<char>) -> VideoCodec {
    let c = crate::text::lowered(codecs);
    if "avc"@.is_prefix_of(c) || "h264"@.is_prefix_of(c) {
        VideoCodec::H264
    } else {
        VideoCodec::Hevc
    }
}

impl VideoCodec {
    pub open spec fn stream_type_of(self) -> u8 {
        match self {
            VideoCodec::Hevc => 0x24,
            VideoCodec::H264 => 0x1B,
        }
    }

    /// The stream type of the PMT.
    pub fn stream_type(self) -> (r: u8)
        ensures
            r == self.stream_type_of(),
    {
        match self {
            VideoCodec::Hevc => STREAM_TYPE_HEVC,
            VideoCodec::H264 => STREAM_TYPE_H264,
        }
    }

    /// The codec that a `codecs` attribute names.
    pub fn from_codecs(codecs: &str) -> (r: Self)
        ensures
            r == video_codec_of(codecs@),
    {
        let c: Vec<char> = crate::text::to_chars(crate::text::to_lowercase(codecs).as_str());
        if crate::text::starts_with(c.as_slice(), "avc") || crate::text::starts_with(
            c.as_slice(),
            "h264",
        ) {
            VideoCodec::H264
        } else {
            VideoCodec::Hevc
        }
    }
}

/// The dynamic range of video.
#[derive(Debug, Clone, Copy, PartialEq, Eq, Structural)]
pub enum VideoRange {
    Sdr,
    /// HDR10 and Dolby Vision.
    Pq,
    Hlg,
}

impl VideoRange {
    pub open spec fn hls_text(self) -> Seq<char> {
        match self {
            VideoRange::Sdr => "SDR"@,
            VideoRange::Pq => "PQ"@,
            VideoRange::Hlg => "HLG"@,
        }
    }

    /// The `VIDEO-RANGE` of HLS.
    pub fn hls_str(self) -> (r: &'static str)
        ensures
            r@ == self.hls_text(),
    {
        match self {
            VideoRange::Sdr => "SDR",
            VideoRange::Pq => "PQ",
            VideoRange::Hlg => "HLG",
        }
    }
}

/// How audio is coded.
#[derive(Debug, Clone, Copy, PartialEq, Eq, Structural)]
pub enum AudioCodec {
    Ac3,
    Ec3,
    AacAdts,
}

impl AudioCodec {
    pub open spec fn stream_type_of(self) -> u8 {
        match self {
            AudioCodec::Ac3 => 0x81,
            AudioCodec::Ec3 => 0x87,
            AudioCodec::AacAdts => 0x0F,
        }
    }

    /// The stream type of the PMT.
    pub fn stream_type(self) -> (r: u8)
        ensures
            r == self.stream_type_of(),
    {
        match self {
            AudioCodec::Ac3 => STREAM_TYPE_AC3,
            AudioCodec::Ec3 => STREAM_TYPE_EC3,
            AudioCodec::AacAdts => STREAM_TYPE_AAC_ADTS,
        }
    }
}

} // verus!
