//! Boxes of MP4 files.

use dv_hls_gateway::mp4::aac::{extract_asc_from_esds, AacConfig};
use dv_hls_gateway::mp4::avcc::parse_avcc;
use dv_hls_gateway::mp4::boxes::iter_boxes;
use dv_hls_gateway::mp4::mdhd::parse_mdhd_timescale;
use dv_hls_gateway::mp4::sample::{parse_media_segment, parse_senc, parse_tfdt};
use dv_hls_gateway::mp4::{DoviConfig, TrackEncryption};

#[test]
fn parse_real_asc() {
    let cfg = AacConfig::parse_asc(&[0x11, 0x90]).unwrap();
    assert_eq!(cfg.object_type, 2);
    assert_eq!(cfg.freq_index, 3);
    assert_eq!(cfg.sample_rate(), 48000);
    assert_eq!(cfg.channel_config, 2);
}

#[test]
fn adts_header_well_formed() {
    let cfg = AacConfig {
        object_type: 2,
        freq_index: 3,
        channel_config: 2,
    };
    let frame = vec![0xDE, 0xAD, 0xBE, 0xEF];
    let adts = cfg.wrap_adts(&frame);
    assert_eq!(adts.len(), 7 + 4);
    // syncword
    assert_eq!(adts[0], 0xFF);
    assert_eq!(adts[1] & 0xF0, 0xF0);
    let flen = (((adts[3] & 0x3) as usize) << 11)
        | ((adts[4] as usize) << 3)
        | ((adts[5] as usize) >> 5);
    assert_eq!(flen, 11);
    assert_eq!((adts[2] >> 2) & 0xF, 3);
    let ch = ((adts[2] & 1) << 2) | (adts[3] >> 6);
    assert_eq!(ch, 2);
    assert_eq!(&adts[7..], &frame[..]);
}

#[test]
fn extract_asc() {
    let esds = vec![0, 0, 0, 0, 0x05, 0x02, 0x11, 0x90];
    let asc = extract_asc_from_esds(&esds).unwrap();
    assert_eq!(asc, vec![0x11, 0x90]);
}

#[test]
fn parse_minimal_avcc() {
    // version,profile,compat,level,lengthSize, numSPS=1, [len=2,67 42], numPPS=1, [len=2,68 ce]
    let payload = [
        0x01, 0x42, 0x00, 0x1f, 0xff, 0xe1, 0x00, 0x02, 0x67, 0x42, 0x01, 0x00, 0x02, 0x68,
        0xce,
    ];
    let ps = parse_avcc(&payload).unwrap();
    assert_eq!(ps.sps.len(), 1);
    assert_eq!(ps.pps.len(), 1);
    assert_eq!(ps.sps[0], vec![0x67, 0x42]);
    assert_eq!(ps.pps[0], vec![0x68, 0xce]);
    assert!(ps.vps.is_empty());
}

#[test]
fn parse_simple_boxes() {
    let mut data = Vec::new();
    data.extend_from_slice(&8u32.to_be_bytes());
    data.extend_from_slice(b"ftyp");
    data.extend_from_slice(&12u32.to_be_bytes());
    data.extend_from_slice(b"free");
    data.extend_from_slice(&[1, 2, 3, 4]);
    let boxes = iter_boxes(&data);
    assert_eq!(boxes.len(), 2);
    assert_eq!(&boxes[0].typ, b"ftyp");
    assert_eq!(&boxes[1].typ, b"free");
    assert_eq!(boxes[1].payload, &[1, 2, 3, 4]);
}

#[test]
fn parse_real_dvcc() {
    let payload = [0x01, 0x00, 0x0a, 0x35, 0x00];
    let cfg = DoviConfig::parse(&payload).unwrap();
    assert_eq!(cfg.version_major, 1);
    assert_eq!(cfg.version_minor, 0);
    assert_eq!(cfg.profile, 5);
    assert_eq!(cfg.level, 6);
    assert!(cfg.rpu_present);
    assert!(!cfg.el_present);
    assert!(cfg.bl_present);
    assert_eq!(cfg.bl_compatibility_id, 0);
    assert_eq!(cfg.codec_string(), "dvh1.05.06");
}

#[test]
fn parses_mdhd_v0_timescale() {
    let mut p = vec![0u8; 32];
    p[12..16].copy_from_slice(&48_000u32.to_be_bytes());
    assert_eq!(parse_mdhd_timescale(&p), Some(48_000));
}

#[test]
fn parses_mdhd_v1_timescale() {
    let mut p = vec![0u8; 40];
    p[0] = 1;
    p[20..24].copy_from_slice(&90_000u32.to_be_bytes());
    assert_eq!(parse_mdhd_timescale(&p), Some(90_000));
}

fn box_bytes(typ: &[u8; 4], payload: &[u8]) -> Vec<u8> {
    let mut v = Vec::new();
    v.extend_from_slice(&((payload.len() + 8) as u32).to_be_bytes());
    v.extend_from_slice(typ);
    v.extend_from_slice(payload);
    v
}

#[test]
fn tfdt_v1_64bit() {
    let mut pl = vec![1, 0, 0, 0];
    pl.extend_from_slice(&4518565519u64.to_be_bytes());
    assert_eq!(parse_tfdt(&pl), Some(4518565519));
}

#[test]
fn tfdt_v0_32bit() {
    let mut pl = vec![0, 0, 0, 0];
    pl.extend_from_slice(&1234567u32.to_be_bytes());
    assert_eq!(parse_tfdt(&pl), Some(1234567));
}

#[test]
fn tfdt_truncated_is_none() {
    assert_eq!(parse_tfdt(&[]), None);
    assert_eq!(parse_tfdt(&[1, 0, 0, 0, 0]), None);
    assert_eq!(parse_tfdt(&[0, 0, 0, 0, 0]), None);
}
#[test]
fn parse_segment_extracts_tfdt_and_samples() {
    // tfdt v1
    let mut tfdt_pl = vec![1u8, 0, 0, 0];
    tfdt_pl.extend_from_slice(&90000u64.to_be_bytes());
    let tfdt = box_bytes(b"tfdt", &tfdt_pl);
    let mut trun_pl = vec![0u8, 0x00, 0x03, 0x01];
    trun_pl.extend_from_slice(&2u32.to_be_bytes()); // sample_count
    trun_pl.extend_from_slice(&0u32.to_be_bytes()); // data_offset
    trun_pl.extend_from_slice(&1024u32.to_be_bytes()); // s0 dur
    trun_pl.extend_from_slice(&3u32.to_be_bytes()); // s0 size
    trun_pl.extend_from_slice(&1024u32.to_be_bytes()); // s1 dur
    trun_pl.extend_from_slice(&4u32.to_be_bytes()); // s1 size
    let trun = box_bytes(b"trun", &trun_pl);

    let mut traf_pl = Vec::new();
    traf_pl.extend_from_slice(&tfdt);
    traf_pl.extend_from_slice(&trun);
    let traf = box_bytes(b"traf", &traf_pl);
    let moof = box_bytes(b"moof", &traf);

    let mdat = box_bytes(b"mdat", &[0xAA; 7]);

    let mut seg = Vec::new();
    seg.extend_from_slice(&moof);
    seg.extend_from_slice(&mdat);

    let parsed = parse_media_segment(&seg).expect("parse");
    assert_eq!(parsed.base_media_decode_time, Some(90000));
    assert_eq!(parsed.samples.len(), 2);
    assert_eq!(parsed.samples[0].duration, 1024);
    assert_eq!(parsed.samples[0].data_range, (0, 3));
    assert_eq!(parsed.samples[1].data_range, (3, 7));
}

#[test]
fn parse_senc_with_constant_iv_and_subsamples() {
    let mut senc = vec![0u8, 0, 0, 2]; // flags=subsample encryption
    senc.extend_from_slice(&2u32.to_be_bytes());
    senc.extend_from_slice(&1u16.to_be_bytes());
    senc.extend_from_slice(&5u16.to_be_bytes());
    senc.extend_from_slice(&32u32.to_be_bytes());
    senc.extend_from_slice(&0u16.to_be_bytes());

    let (ivs, subs) = parse_senc(&senc, Some(0)).unwrap();
    assert_eq!(ivs.len(), 2);
    assert!(ivs.iter().all(|iv| iv.is_empty()));
    assert_eq!(subs[0].len(), 1);
    assert_eq!(subs[0][0].clear, 5);
    assert_eq!(subs[0][0].encrypted, 32);
    assert!(subs[1].is_empty());
}
#[test]
fn parse_segment_without_tfdt_is_none() {
    let mut trun_pl = vec![0u8, 0x00, 0x03, 0x01];
    trun_pl.extend_from_slice(&1u32.to_be_bytes());
    trun_pl.extend_from_slice(&0u32.to_be_bytes());
    trun_pl.extend_from_slice(&512u32.to_be_bytes());
    trun_pl.extend_from_slice(&2u32.to_be_bytes());
    let trun = box_bytes(b"trun", &trun_pl);
    let traf = box_bytes(b"traf", &trun);
    let moof = box_bytes(b"moof", &traf);
    let mdat = box_bytes(b"mdat", &[1, 2]);
    let mut seg = Vec::new();
    seg.extend_from_slice(&moof);
    seg.extend_from_slice(&mdat);
    let parsed = parse_media_segment(&seg).expect("parse");
    assert_eq!(parsed.base_media_decode_time, None);
    assert_eq!(parsed.samples.len(), 1);
}

#[test]
fn parse_real_tenc() {
    let payload = hex(b"000000000000010800112233445566778899aabbccddeeff");
    let t = TrackEncryption::parse(&payload).unwrap();
    assert!(t.is_protected);
    assert_eq!(t.iv_size, 8);
    assert_eq!(t.kid, "00112233445566778899aabbccddeeff");
    assert_eq!(t.crypt_byte_block, 0);
    assert_eq!(t.skip_byte_block, 0);
    assert!(t.constant_iv.is_none());
}

#[test]
fn parse_cbcs_tenc_v1_pattern_and_constant_iv() {
    let payload = hex(
        b"0100000000190100112233445566778899aabbccddeeff10100102030405060708090a0b0c0d0e0f10",
    );
    let t = TrackEncryption::parse(&payload).unwrap();
    assert!(t.is_protected);
    assert_eq!(t.iv_size, 0);
    assert_eq!(t.crypt_byte_block, 1);
    assert_eq!(t.skip_byte_block, 9);
    assert_eq!(t.kid, "112233445566778899aabbccddeeff10");
    assert_eq!(
        t.constant_iv.unwrap(),
        hex(b"0102030405060708090a0b0c0d0e0f10")[..]
    );
}

fn hex(s: &[u8]) -> Vec<u8> {
    let s = std::str::from_utf8(s).unwrap();
    (0..s.len() / 2)
        .map(|i| u8::from_str_radix(&s[i * 2..i * 2 + 2], 16).unwrap())
        .collect()
}

#[test]
fn init_segment_states_its_encryption() {
    let boxed = |typ: &[u8; 4], payload: &[u8]| {
        let mut v = ((payload.len() + 8) as u32).to_be_bytes().to_vec();
        v.extend_from_slice(typ);
        v.extend_from_slice(payload);
        v
    };
    let mut payload = vec![0, 0, 0, 0, 0, 0, 1, 8];
    payload.extend(0x10..0x20u8);
    let tenc = boxed(b"tenc", &payload);
    let init = |schm: &[u8]| {
        let mut inner = boxed(b"frma", b"hvc1");
        if !schm.is_empty() {
            inner.extend(boxed(b"schm", schm));
        }
        inner.extend(boxed(b"schi", &tenc));
        boxed(b"moov", &boxed(b"sinf", &inner))
    };
    let own = TrackEncryption::parse(&payload).unwrap();
    for (schm, scheme) in [
        (&b"\0\0\0\0cbcs\0\x01\0\0"[..], Some("cbcs")),
        (&b"\0\0\0\0cenc"[..], Some("cenc")),
        (&b"\0\0\0\0cbc"[..], None),
        (&b""[..], None),
    ] {
        let t = TrackEncryption::find_in_init(&init(schm)).unwrap();
        assert_eq!(t.scheme.as_deref(), scheme);
        assert_eq!(t.is_cbcs(), scheme == Some("cbcs"));
        assert_eq!((&t.kid, t.iv_size), (&own.kid, own.iv_size));
    }
    assert!(TrackEncryption::find_in_init(&boxed(b"tenc", &payload[..20])).is_none());
    let hidden = boxed(b"moov", &[&[0u8; 6][..], &tenc[..]].concat());
    assert_eq!(TrackEncryption::find_in_init(&hidden).unwrap().kid, own.kid);
}
