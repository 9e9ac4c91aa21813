//! NAL units, access units and parameter sets.

use dv_hls_gateway::hevc::annexb::{split_length_prefixed, AccessUnit};
use dv_hls_gateway::hevc::sps::{unescape_rbsp, BitReader};
use dv_hls_gateway::hevc::{h264, nal};
use dv_hls_gateway::ts::VideoCodec;

fn hevc_nalu(t: u8, payload: &[u8]) -> Vec<u8> {
    let hdr0 = (t << 1) & 0x7E;
    let mut v = vec![hdr0, 0x01];
    v.extend_from_slice(payload);
    v
}

fn length_prefixed(nals: &[Vec<u8>]) -> Vec<u8> {
    let mut s = Vec::new();
    for n in nals {
        s.extend_from_slice(&(n.len() as u32).to_be_bytes());
        s.extend_from_slice(n);
    }
    s
}

#[test]
fn split_roundtrip() {
    let nals = vec![
        hevc_nalu(nal::AUD, &[0x10]),
        hevc_nalu(nal::TRAIL_R, &[1, 2, 3]),
    ];
    let sample = length_prefixed(&nals);
    let got = split_length_prefixed(&sample);
    assert_eq!(got.len(), 2);
    assert_eq!(got[0], nals[0].as_slice());
}

#[test]
fn hevc_irap_injects_after_aud() {
    let aud = hevc_nalu(nal::AUD, &[0x10]);
    let idr = hevc_nalu(nal::IDR_N_LP, &[0xaa]);
    let rpu = hevc_nalu(nal::DV_RPU, &[0xbb; 4]);
    let sample = length_prefixed(&[aud.clone(), idr.clone(), rpu.clone()]);
    let au = AccessUnit::from_sample(&sample, 0, 0, VideoCodec::Hevc);
    assert!(au.is_irap);
    let vps = hevc_nalu(nal::VPS, &[1]);
    let sps = hevc_nalu(nal::SPS, &[2]);
    let pps = hevc_nalu(nal::PPS, &[3]);
    let mut out = Vec::new();
    au.write_annexb(&mut out, &[vps.clone(), sps.clone(), pps.clone()]);
    let sc = &[0u8, 0, 0, 1][..];
    let mut expect = Vec::new();
    for n in [&aud, &vps, &sps, &pps, &idr, &rpu] {
        expect.extend_from_slice(sc);
        expect.extend_from_slice(n);
    }
    assert_eq!(out, expect);
}

#[test]
fn rpu_passthrough_untouched() {
    let rpu_payload = [0x00, 0x00, 0x01, 0xff];
    let rpu = hevc_nalu(nal::DV_RPU, &rpu_payload);
    let sample = length_prefixed(&[hevc_nalu(nal::TRAIL_R, &[9]), rpu.clone()]);
    let au = AccessUnit::from_sample(&sample, 0, 0, VideoCodec::Hevc);
    let mut out = Vec::new();
    au.write_annexb(&mut out, &[]);
    let needle = rpu.as_slice();
    assert!(out.windows(needle.len()).any(|w| w == needle));
}

#[test]
fn h264_irap_injection() {
    // H264: AUD(9) + IDR(5)
    let aud = vec![0x09u8, 0x10];
    let idr = vec![0x65u8, 0xaa]; // type 5
    let sample = length_prefixed(&[aud.clone(), idr.clone()]);
    let au = AccessUnit::from_sample(&sample, 0, 0, VideoCodec::H264);
    assert!(au.is_irap);
    let sps = vec![0x67u8, 0x42];
    let pps = vec![0x68u8, 0xce];
    let mut out = Vec::new();
    au.write_annexb(&mut out, &[sps.clone(), pps.clone()]);
    let sc = &[0u8, 0, 0, 1][..];
    let mut expect = Vec::new();
    for n in [&aud, &sps, &pps, &idr] {
        expect.extend_from_slice(sc);
        expect.extend_from_slice(n);
    }
    assert_eq!(out, expect);
}

#[test]
fn types() {
    assert_eq!(h264::nal_type(0x67), h264::SPS);
    assert_eq!(h264::nal_type(0x68), h264::PPS);
    assert_eq!(h264::nal_type(0x65), h264::IDR_SLICE);
    assert!(h264::is_irap(h264::IDR_SLICE));
    assert!(!h264::is_irap(h264::NON_IDR_SLICE));
}

#[test]
fn parse_real_aud() {
    assert_eq!(nal::nal_type(0x46), nal::AUD);
}

#[test]
fn parse_rpu() {
    assert_eq!(nal::nal_type(0x7C), nal::DV_RPU);
}

#[test]
fn irap_classification() {
    assert!(nal::is_irap(nal::IDR_N_LP));
    assert!(nal::is_irap(nal::IDR_W_RADL));
    assert!(nal::is_irap(nal::CRA_NUT));
    assert!(!nal::is_irap(nal::TRAIL_R));
    assert!(!nal::is_irap(nal::DV_RPU));
}

#[test]
fn ue_decode() {
    // bits 1 -> ue=0 ; 010 -> ue=1 ; 011 -> ue=2
    let mut r = BitReader::new(&[0b1_010_011_0]);
    assert_eq!(r.ue(), 0);
    assert_eq!(r.ue(), 1);
    assert_eq!(r.ue(), 2);
}
#[test]
fn unescape() {
    assert_eq!(
        unescape_rbsp(&[0x00, 0x00, 0x03, 0x01]),
        vec![0x00, 0x00, 0x01]
    );
}
