//! Tasks on HLS sources.

use dv_hls_gateway::hls::{HlsMediaPlaylist, HlsSegment, HlsSegmentKey};
use dv_hls_gateway::task::hls_fmp4::detect_audio_codec;
use dv_hls_gateway::task::hls_source::{
    build_fmp4_jobs, hls_media_sequence_rewound, SelectedHlsInput,
};
use dv_hls_gateway::task::hls_ts::{first_configured_key, parse_key_body};
use dv_hls_gateway::ts::AudioCodec;

#[test]
fn configured_key_accepts_kid_key_line() {
    let key = first_configured_key(
        "00112233445566778899aabbccddeeff:d493d5a70c793362324638f61d1726ac",
    )
    .unwrap();
    assert_eq!(key[0], 0xd4);
    assert_eq!(key[15], 0xac);
}

#[test]
fn key_body_accepts_raw_or_hex() {
    assert_eq!(parse_key_body(&[7u8; 16]).unwrap(), [7u8; 16]);
    let key = parse_key_body(b"kid:d493d5a70c793362324638f61d1726ac\n").unwrap();
    assert_eq!(key[0], 0xd4);
}

#[test]
fn hls_fmp4_audio_codec_detection_distinguishes_ac3_ec3_and_aac() {
    assert_eq!(detect_audio_codec("hvc1.2.4.L153.90,ac-3"), AudioCodec::Ac3);
    assert_eq!(detect_audio_codec("hvc1.2.4.L153.90,ec-3"), AudioCodec::Ec3);
    assert_eq!(
        detect_audio_codec("avc1.64001f,mp4a.40.2"),
        AudioCodec::AacAdts
    );
}

#[test]
fn fmp4_jobs_wait_for_matching_audio_sequence() {
    let selected = SelectedHlsInput {
        video_url: "https://cdn/v.m3u8".to_string(),
        video: playlist(vec![10, 11, 12]),
        audio_url: Some("https://cdn/a.m3u8".to_string()),
        audio: Some(playlist(vec![10])),
        subtitle_url: None,
        subtitle: None,
    };
    let jobs = build_fmp4_jobs(&selected, &[]);
    assert_eq!(jobs.len(), 1);
    assert_eq!(jobs[0].sequence, 10);
    assert!(jobs[0].audio.is_some());
}

#[test]
fn fmp4_jobs_allow_video_only_when_no_audio_track_selected() {
    let selected = SelectedHlsInput {
        video_url: "https://cdn/v.m3u8".to_string(),
        video: playlist(vec![10, 11]),
        audio_url: None,
        audio: None,
        subtitle_url: None,
        subtitle: None,
    };
    let jobs = build_fmp4_jobs(&selected, &[]);
    assert_eq!(jobs.len(), 2);
    assert!(jobs.iter().all(|j| j.audio.is_none()));
}

#[test]
fn hls_media_sequence_rewind_starts_new_epoch() {
    let old = playlist(vec![100, 101, 102]);
    let fresh = playlist(vec![10, 11, 12]);
    assert!(hls_media_sequence_rewound(&old, &fresh));
    assert!(!hls_media_sequence_rewound(&fresh, &old));
}

fn playlist(sequences: Vec<u64>) -> HlsMediaPlaylist {
    HlsMediaPlaylist {
        uri: "https://cdn/p.m3u8".to_string(),
        target_duration: 6,
        media_sequence: sequences.first().copied().unwrap_or(0),
        end_list: false,
        has_map: true,
        map_uri: Some("https://cdn/init.mp4".to_string()),
        segments: sequences
            .into_iter()
            .map(|sequence| HlsSegment {
                sequence,
                uri: format!("https://cdn/{sequence}.m4s"),
                duration_ns: 6_000_000_000,
                key: HlsSegmentKey::Clear,
                discontinuity: false,
            })
            .collect(),
    }
}
