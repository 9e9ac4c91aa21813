//! What the packets of a segment carry.

use dv_hls_gateway::clock::{rescale_90k, rescale_90k_signed, wrap33, ClockState, PTS_MODULO};
use dv_hls_gateway::hevc::annexb::{split_length_prefixed, AccessUnit};
use dv_hls_gateway::hevc::nal::is_vcl;
use dv_hls_gateway::hevc::sps::{h264_sps_range, hevc_sps_range, BitReader};
use dv_hls_gateway::mp4::aac::AacConfig;
use dv_hls_gateway::mp4::{DoviConfig, ParamSets};
use dv_hls_gateway::ts::bitwriter::BitWriter;
use dv_hls_gateway::ts::crc32::mpeg_crc32;
use dv_hls_gateway::ts::descriptor::dolby_vision_descriptor;
use dv_hls_gateway::ts::muxer::{AudioUnit, TsMuxer};
use dv_hls_gateway::ts::packet::{pack_pes, pack_section, ContinuityCounters};
use dv_hls_gateway::ts::pat::build_pat_section;
use dv_hls_gateway::ts::pes::build_pes;
use dv_hls_gateway::ts::pmt::build_pmt_section;
use dv_hls_gateway::ts::{AudioCodec, VideoCodec, VideoRange, PID_AUDIO, PID_VIDEO};
use dv_hls_gateway::wire::{push_be16, push_be32, read_be16, read_be32, read_be64, to_signed32};

/// The payload of the packets with this number, put together.
fn payload_of(packets: &[u8], pid: u16) -> Vec<u8> {
    let mut out = Vec::new();
    for p in packets.chunks_exact(188) {
        assert_eq!(p[0], 0x47);
        let this = (((p[1] & 0x1f) as u16) << 8) | p[2] as u16;
        if this != pid {
            continue;
        }
        let from = if p[3] & 0x20 != 0 { 5 + p[4] as usize } else { 4 };
        out.extend_from_slice(&p[from..]);
    }
    out
}

#[test]
fn numbers_survive_their_bytes() {
    let mut out = Vec::new();
    push_be16(&mut out, 0xabcd);
    push_be32(&mut out, 0x0102_0304);
    assert_eq!(out, [0xab, 0xcd, 1, 2, 3, 4]);
    assert_eq!(read_be16(&out, 0), 0xabcd);
    assert_eq!(read_be32(&out, 2), 0x0102_0304);
    assert_eq!(read_be64(&[0, 0, 0, 1, 0, 0, 0, 2], 0), 0x1_0000_0002);
    assert_eq!(to_signed32(0xffff_fffe), -2);
}

#[test]
fn clock_scales_and_wraps() {
    assert_eq!(rescale_90k_signed(-1001, 24000), -3753);
    assert_eq!(rescale_90k(u64::MAX, 1), u64::MAX.wrapping_mul(90_000));
    assert_eq!(wrap33(PTS_MODULO * 3 + 7), 7);
    let clock = ClockState::new(-2002, 24000, 90000);
    assert_eq!(clock.pts_dts(0, -2002), (90000, 90000));
    assert_eq!(clock.pts_dts(1001, 0), (90000 + 7507 + 3753, 90000 + 3753));
}

#[test]
fn rescaling_is_monotone_and_off_by_less_than_a_tick() {
    let mut last = 0;
    for ts in 0..2_000u64 {
        let r = rescale_90k(ts, 44_100);
        assert!(r >= last);
        assert!(r * 44_100 <= ts * 90_000);
        assert!((r + 1) * 44_100 > ts * 90_000);
        last = r;
    }
}

#[test]
fn bits_are_read_back() {
    let mut w = BitWriter::new();
    w.bits(0b101, 3);
    w.bits(0x1234_5678, 32);
    w.bit(true);
    assert!(!w.is_aligned());
    w.align(true);
    assert_eq!(w.len(), 5);
    w.u8(0xee);
    let out = w.into_bytes();
    let mut r = BitReader::new(&out);
    assert_eq!(r.u(3), 0b101);
    assert_eq!(r.u(32), 0x1234_5678);
    assert_eq!(r.u(5), 0b11111);
    assert_eq!(r.u(8), 0xee);
    assert!(BitWriter::new().is_empty());
}

#[test]
fn section_checks_to_zero_and_states_its_length() {
    for section in [
        build_pat_section(0x1000),
        build_pmt_section(PID_VIDEO, VideoCodec::H264, None, None),
    ] {
        assert_eq!(mpeg_crc32(&section), 0);
        let stated = (((section[1] & 0x0f) as usize) << 8) | section[2] as usize;
        assert_eq!(stated + 3, section.len());
    }
    assert_eq!(
        build_pat_section(0x1000)[..12],
        [0x00, 0xb0, 0x0d, 0x00, 0x01, 0xc1, 0x00, 0x00, 0x00, 0x01, 0xf0, 0x00]
    );
}

#[test]
fn counters_run_from_packet_to_packet() {
    let mut cc = ContinuityCounters::new();
    for i in 0..18u8 {
        let p = pack_section(0x1000, &[1, 2, 3], &mut cc);
        assert_eq!(p[3] & 0x0f, i % 16);
        assert_eq!(&p[..4], &[0x47, 0x50, 0x00, 0x10 | (i % 16)]);
        assert_eq!(&p[4..8], &[0, 1, 2, 3]);
        assert!(p[8..].iter().all(|b| *b == 0xff));
    }
}

#[test]
fn packets_carry_the_pes_and_only_the_first_starts_it() {
    for len in [1usize, 100, 175, 176, 183, 184, 185, 400, 1000] {
        for pcr in [None, Some(0x1_2345_6789u64)] {
            let pes: Vec<u8> = (0..len).map(|i| (i % 251) as u8).collect();
            let mut cc = ContinuityCounters::new();
            let mut out = Vec::new();
            pack_pes(0x101, &pes, pcr, pcr.is_some(), &mut cc, &mut out);
            assert_eq!(payload_of(&out, 0x101), pes);
            let starts: Vec<bool> =
                out.chunks_exact(188).map(|p| p[1] & 0x40 != 0).collect();
            assert!(starts[0]);
            assert!(starts[1..].iter().all(|s| !s));
        }
    }
}

#[test]
fn program_clock_stands_in_the_first_packet() {
    let mut cc = ContinuityCounters::new();
    let mut out = Vec::new();
    pack_pes(0x100, &[9; 10], Some(0x1_2345_6789), true, &mut cc, &mut out);
    assert_eq!(out[5], 0x50);
    let base = ((out[6] as u64) << 25)
        | ((out[7] as u64) << 17)
        | ((out[8] as u64) << 9)
        | ((out[9] as u64) << 1)
        | ((out[10] as u64) >> 7);
    assert_eq!(base, 0x1_2345_6789);
}

#[test]
fn pes_gives_its_payload_and_its_times_back() {
    let pts = 0x1_2345_6789u64;
    let dts = 0x0_0fed_cba9u64;
    let pes = build_pes(0xe0, pts, Some(dts), &[7, 8, 9]);
    let read = |at: usize| {
        (((pes[at] >> 1) as u64 & 7) << 30)
            | ((pes[at + 1] as u64) << 22)
            | (((pes[at + 2] >> 1) as u64) << 15)
            | ((pes[at + 3] as u64) << 7)
            | ((pes[at + 4] >> 1) as u64)
    };
    assert_eq!(read(9), pts);
    assert_eq!(read(14), dts);
    assert_eq!(&pes[9 + pes[8] as usize..], &[7, 8, 9]);
    let plain = build_pes(0xc0, pts, None, &[7]);
    assert_eq!(plain[8], 5);
    assert_eq!(plain[7] & 0xc0, 0x80);
}

#[test]
fn descriptor_states_the_configuration() {
    let dv = DoviConfig {
        version_major: 1,
        version_minor: 0,
        profile: 8,
        level: 9,
        rpu_present: true,
        el_present: false,
        bl_present: true,
        bl_compatibility_id: 4,
    };
    let d = dolby_vision_descriptor(&dv);
    let again = DoviConfig::parse(&d[2..]).unwrap();
    assert_eq!(again, dv);
    assert_eq!(dv.codec_string(), "dvh1.08.09");
    assert!(DoviConfig::parse(&[1, 0, 0x0a]).is_none());
}

#[test]
fn adts_header_states_the_frame_length() {
    let cfg = AacConfig { object_type: 2, freq_index: 4, channel_config: 1 };
    for n in [0usize, 1, 100, 2040] {
        let frame = vec![0x5a; n];
        let out = cfg.wrap_adts(&frame);
        let stated = (((out[3] & 3) as usize) << 11)
            | ((out[4] as usize) << 3)
            | ((out[5] >> 5) as usize);
        assert_eq!(stated, n + 7);
        assert_eq!(&out[7..], &frame[..]);
    }
    assert_eq!(cfg.sample_rate(), 44_100);
    assert!(AacConfig::parse_asc(&[0x11]).is_none());
}

#[test]
fn units_pass_through_in_order() {
    let mut sample = Vec::new();
    for nal in [&[0x02u8, 0x01, 5][..], &[0x7c, 0x01, 0, 0, 1][..]] {
        sample.extend_from_slice(&(nal.len() as u32).to_be_bytes());
        sample.extend_from_slice(nal);
    }
    let mut cut = sample.clone();
    cut.extend_from_slice(&[0, 0, 0, 9, 1]);
    assert_eq!(split_length_prefixed(&cut), split_length_prefixed(&sample));
    let au = AccessUnit::from_sample(&sample, 3, -4, VideoCodec::Hevc);
    assert_eq!((au.dts, au.cts_offset, au.is_irap), (3, -4, false));
    let mut out = Vec::new();
    au.write_annexb(&mut out, &[vec![9, 9]]);
    assert_eq!(
        out,
        [0, 0, 0, 1, 0x02, 0x01, 5, 0, 0, 0, 1, 0x7c, 0x01, 0, 0, 1]
    );
}

#[test]
fn parameter_sets_stand_behind_the_delimiter() {
    let unit = |nals: Vec<Vec<u8>>| AccessUnit {
        nals,
        is_irap: true,
        dts: 0,
        cts_offset: 0,
        codec: VideoCodec::Hevc,
    };
    let aud = vec![0x46u8, 0x01];
    let sets = [vec![0x40u8, 0x01]];
    let mut out = vec![9u8];
    unit(vec![aud.clone()]).write_annexb(&mut out, &sets);
    assert_eq!(out, [9, 0, 0, 0, 1, 0x46, 0x01, 0, 0, 0, 1, 0x40, 0x01]);
    let mut out = Vec::new();
    unit(vec![vec![], aud, vec![0x28, 1]]).write_annexb(&mut out, &sets);
    assert_eq!(
        out,
        [0, 0, 0, 1, 0x46, 0x01, 0, 0, 0, 1, 0x40, 0x01, 0, 0, 0, 1, 0x28, 1]
    );
    let mut out = vec![7u8];
    unit(vec![vec![]]).write_annexb(&mut out, &sets);
    assert_eq!(out, [7, 0, 0, 0, 1, 0x40, 0x01]);
}

fn muxer(audio: Option<AudioCodec>) -> TsMuxer {
    let params = ParamSets {
        vps: vec![vec![0x40, 1]],
        sps: vec![vec![0x42, 1]],
        pps: vec![vec![0x44, 1]],
    };
    let clock = ClockState::new(0, 90_000, 90_000);
    TsMuxer::new(&params, VideoCodec::Hevc, None, audio, 48_000, clock)
}

#[test]
fn segment_is_whole_packets_behind_its_tables() {
    let mut m = muxer(Some(AudioCodec::Ec3));
    let mut sample = 3u32.to_be_bytes().to_vec();
    sample.extend_from_slice(&[0x28, 0x01, 0xaa]);
    let video = [AccessUnit::from_sample(&sample, 0, 0, VideoCodec::Hevc)];
    let audio = [AudioUnit { data: vec![1, 2, 3], pts: 0 }];
    let out = m.mux_segment(&video, &audio);
    assert_eq!(out.len() % 188, 0);
    assert_eq!(&out[1..3], &[0x40, 0x00]);
    assert_eq!(&out[189..191], &[0x50, 0x00]);
    assert_eq!(&out[377..379], &[0x41, 0x00]);
    assert_eq!((out[379] >> 4, out[381]), (3, 0x50));
    let v = payload_of(&out, PID_VIDEO);
    assert!(v.windows(7).any(|w| w == [0, 0, 0, 1, 0x28, 0x01, 0xaa]));
    assert!(v.windows(6).any(|w| w == [0, 0, 0, 1, 0x42, 1]));
    let a = payload_of(&out, PID_AUDIO);
    assert_eq!(&a[a.len() - 3..], &[1, 2, 3]);
    assert_eq!(m.audio_kind(), Some(AudioCodec::Ec3));
    assert_eq!(m.audio_ticks(), 48_000);
    assert!(m.dovi_descriptor_bytes().is_none());
    assert!(muxer(None).audio_kind().is_none());
}

#[test]
fn units_and_ranges_are_named() {
    assert!(is_vcl(0) && is_vcl(31) && !is_vcl(32));
    assert_eq!(VideoRange::Pq.hls_str(), "PQ");
    assert_eq!(VideoRange::Hlg.hls_str(), "HLG");
    assert_eq!(VideoRange::Sdr.hls_str(), "SDR");
    assert_eq!(VideoCodec::from_codecs("avc1.64001f"), VideoCodec::H264);
    assert_eq!(VideoCodec::from_codecs("dvh1.05.06"), VideoCodec::Hevc);
}

#[test]
fn ranges_of_unreadable_parameter_sets() {
    assert!(hevc_sps_range(&[]).is_none());
    assert!(h264_sps_range(&[]).is_none());
}

#[test]
fn segments_carry_every_frame_and_count_on() {
    let mut m = muxer(Some(AudioCodec::Ec3));
    let unit = |n: u64, irap: bool| {
        let first = if irap { 0x28 } else { 0x02 };
        let mut sample = 300u32.to_be_bytes().to_vec();
        sample.extend_from_slice(&[first, 1]);
        sample.extend((0..298).map(|i| (i + n as usize) as u8));
        AccessUnit::from_sample(&sample, n * 3_600, 0, VideoCodec::Hevc)
    };
    let sound = |n: u64| AudioUnit { data: vec![n as u8 + 1; 250], pts: n * 1_536 };
    let mut stream = Vec::new();
    let mut video = Vec::new();
    let mut audio = Vec::new();
    for s in 0..3u64 {
        let v: Vec<AccessUnit> = (0..5).map(|i| unit(s * 5 + i, i == 0)).collect();
        let a: Vec<AudioUnit> = (0..7).map(|i| sound(s * 7 + i)).collect();
        stream.extend_from_slice(&m.mux_segment(&v, &a));
        video.extend(v);
        audio.extend(a);
    }
    let bytes = payload_of(&stream, PID_VIDEO);
    let mut at = 0;
    for au in &video {
        let mut written = Vec::new();
        au.write_annexb(&mut written, &[vec![0x40, 1], vec![0x42, 1], vec![0x44, 1]]);
        assert_eq!(bytes[at..at + 4], [0, 0, 1, 0xe0]);
        at += 9 + bytes[at + 8] as usize;
        assert_eq!(bytes[at..at + written.len()], written[..]);
        at += written.len();
    }
    assert_eq!(at, bytes.len());
    let bytes = payload_of(&stream, PID_AUDIO);
    let mut at = 0;
    for au in &audio {
        assert_eq!(bytes[at..at + 4], [0, 0, 1, 0xc0]);
        at += 14;
        assert_eq!(bytes[at..at + 250], au.data[..]);
        at += 250;
    }
    assert_eq!(at, bytes.len());
    for pid in [0u16, 0x1000, PID_VIDEO, PID_AUDIO] {
        let counters: Vec<u8> = stream
            .chunks_exact(188)
            .filter(|p| ((p[1] as u16 & 0x1f) << 8 | p[2] as u16) == pid)
            .map(|p| p[3] & 15)
            .collect();
        assert!(counters.iter().enumerate().all(|(i, c)| *c as usize == i % 16));
    }
}
