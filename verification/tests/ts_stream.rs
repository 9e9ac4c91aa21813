//! Packets, sections and PES headers of MPEG-TS.

use dv_hls_gateway::mp4::DoviConfig;
use dv_hls_gateway::ts::bitwriter::BitWriter;
use dv_hls_gateway::ts::crc32::mpeg_crc32;
use dv_hls_gateway::ts::descriptor::dolby_vision_descriptor;
use dv_hls_gateway::ts::packet::{pack_pes, pack_section, ContinuityCounters};
use dv_hls_gateway::ts::pat::build_pat_section;
use dv_hls_gateway::ts::pes::build_pes;
use dv_hls_gateway::ts::pmt::build_pmt_section;
use dv_hls_gateway::ts::{AudioCodec, VideoCodec, PID_AUDIO, PID_VIDEO};

#[test]
fn pack_dovi_fields() {
    // profile=5(7bit) level=6(6bit) rpu=1 el=0 bl=1 compat=0(4bit)
    let mut w = BitWriter::new();
    w.bits(5, 7); // profile
    w.bits(6, 6); // level
    w.bit(true); // rpu
    w.bit(false); // el
    w.bit(true); // bl
    w.bits(0, 4); // compat
    w.align(false);
    let out = w.into_bytes();
    assert_eq!(out[0], 0x0A);
    assert_eq!(out[1], 0x35);
    assert_eq!(out[2] & 0xF0, 0x00);
}

#[test]
fn known_vector() {
    let data = [
        0x00u8, 0xB0, 0x0D, 0x00, 0x01, 0xC1, 0x00, 0x00, 0x00, 0x01, 0xF0, 0x00,
    ];
    let crc = mpeg_crc32(&data);
    assert_eq!(crc, 0x2AB1_04B2, "got {:08X}", crc);
}

fn cfg_p5() -> DoviConfig {
    DoviConfig {
        version_major: 1,
        version_minor: 0,
        profile: 5,
        level: 6,
        rpu_present: true,
        el_present: false,
        bl_present: true,
        bl_compatibility_id: 0,
    }
}

#[test]
fn dovi_descriptor_matches_real_bytes() {
    let d = dolby_vision_descriptor(&cfg_p5());
    assert_eq!(d, vec![0xB0, 0x05, 0x01, 0x00, 0x0A, 0x35, 0x00]);
}

#[test]
fn dovi_descriptor_roundtrip() {
    let cfg = cfg_p5();
    let d = dolby_vision_descriptor(&cfg);
    let p = &d[2..];
    let val = ((p[2] as u32) << 16) | ((p[3] as u32) << 8) | (p[4] as u32);
    assert_eq!((val >> 17) & 0x7F, cfg.profile as u32);
    assert_eq!((val >> 11) & 0x3F, cfg.level as u32);
    assert_eq!((val >> 10) & 1, 1);
    assert_eq!((val >> 8) & 1, 1);
}

#[test]
fn section_packet_is_188() {
    let mut cc = ContinuityCounters::new();
    let pkt = pack_section(0x0000, &[0x00, 0x01, 0x02], &mut cc);
    assert_eq!(pkt.len(), 188);
    assert_eq!(pkt[0], 0x47);
    assert_eq!(pkt[1] & 0x40, 0x40); // PUSI
}

#[test]
fn pes_packs_to_188_multiples_with_pcr() {
    let mut cc = ContinuityCounters::new();
    let pes = vec![0xAAu8; 400];
    let mut out = Vec::new();
    pack_pes(0x0101, &pes, Some(90000), true, &mut cc, &mut out);
    assert_eq!(out.len() % 188, 0);
    assert_eq!(out[3] & 0x30, 0x30);
    assert_eq!(out[0], 0x47);
    assert_eq!(out[1] & 0x40, 0x40);
}

#[test]
fn pes_tail_stuffing_exact_188() {
    let mut cc = ContinuityCounters::new();
    let pes = vec![0xBBu8; 200];
    let mut out = Vec::new();
    pack_pes(0x0101, &pes, None, false, &mut cc, &mut out);
    assert_eq!(out.len() % 188, 0);
}

#[test]
fn pat_well_formed() {
    let pat = build_pat_section(0x0100);
    assert_eq!(pat[0], 0x00); // table_id
    assert_eq!(pat.len(), 16);
    let crc = mpeg_crc32(&pat[..pat.len() - 4]);
    let stored = u32::from_be_bytes([
        pat[pat.len() - 4],
        pat[pat.len() - 3],
        pat[pat.len() - 2],
        pat[pat.len() - 1],
    ]);
    assert_eq!(crc, stored);
}

#[test]
fn pes_header_pts_dts() {
    let pes = build_pes(0xE0, 90000, Some(86247), &[0xAA, 0xBB]);
    assert_eq!(&pes[0..3], &[0x00, 0x00, 0x01]);
    assert_eq!(pes[3], 0xE0);
    // PES_packet_length=0
    assert_eq!(&pes[4..6], &[0x00, 0x00]);
    assert_eq!(pes[6] & 0xC0, 0x80);
    // data_alignment bit (pes[6] bit2)
    assert_eq!(pes[6] & 0x04, 0x04);
    // PTS_DTS_flags = 11
    assert_eq!(pes[7] & 0xC0, 0xC0);
    // header_data_length = 10
    assert_eq!(pes[8], 10);
    assert_eq!(pes[9] & 0xF0, 0x30);
    assert_eq!(&pes[pes.len() - 2..], &[0xAA, 0xBB]);
}

#[test]
fn audio_pes_writes_packet_length() {
    let pes = build_pes(0xC0, 90000, None, &[0xAA, 0xBB, 0xCC]);
    // 3 bytes optional flags/header length + 5 bytes PTS + payload.
    assert_eq!(u16::from_be_bytes([pes[4], pes[5]]), 11);
}

#[test]
fn pmt_contains_dovi_and_crc_ok() {
    let pmt = build_pmt_section(
        PID_VIDEO,
        VideoCodec::Hevc,
        Some((PID_AUDIO, AudioCodec::Ec3)),
        Some(&cfg_p5()),
    );
    assert_eq!(pmt[0], 0x02);
    let needle = [0xB0u8, 0x05, 0x01, 0x00, 0x0A, 0x35, 0x00];
    assert!(
        pmt.windows(needle.len()).any(|w| w == needle),
        "DOVI desc missing"
    );
    assert!(pmt.contains(&0x24));
    assert!(pmt.contains(&0x87));
    let crc = mpeg_crc32(&pmt[..pmt.len() - 4]);
    let stored = u32::from_be_bytes([
        pmt[pmt.len() - 4],
        pmt[pmt.len() - 3],
        pmt[pmt.len() - 2],
        pmt[pmt.len() - 1],
    ]);
    assert_eq!(crc, stored);
}

#[test]
fn pmt_audio_stream_type_follows_codec() {
    let cases = [
        (AudioCodec::Ac3, 0x81),
        (AudioCodec::Ec3, 0x87),
        (AudioCodec::AacAdts, 0x0F),
    ];

    for (codec, expected_stream_type) in cases {
        let pmt =
            build_pmt_section(PID_VIDEO, VideoCodec::Hevc, Some((PID_AUDIO, codec)), None);
        let types = es_stream_types(&pmt);
        assert_eq!(types, vec![0x24, expected_stream_type]);
    }
}

fn es_stream_types(pmt: &[u8]) -> Vec<u8> {
    let section_len = (((pmt[1] & 0x0f) as usize) << 8) | pmt[2] as usize;
    let section_end = 3 + section_len - 4;
    let program_info_len = (((pmt[10] & 0x0f) as usize) << 8) | pmt[11] as usize;
    let mut pos = 12 + program_info_len;
    let mut types = Vec::new();
    while pos + 5 <= section_end {
        types.push(pmt[pos]);
        let es_info_len = (((pmt[pos + 3] & 0x0f) as usize) << 8) | pmt[pos + 4] as usize;
        pos += 5 + es_info_len;
    }
    types
}
