//! HLS playlists.

use dv_hls_gateway::hls::{parse_playlist, HlsPlaylist, HlsSegmentKey};

#[test]
fn parses_master_variants() {
    let text = r#"#EXTM3U
#EXT-X-STREAM-INF:BANDWIDTH=2400000,RESOLUTION=1280x720,CODECS="avc1.64001f,mp4a.40.2"
v/720/main.m3u8
#EXT-X-STREAM-INF:BANDWIDTH=5500000,RESOLUTION=1920x1080,VIDEO-RANGE=PQ,CODECS="hvc1.2.4.L153.B0,ec-3"
/live/1080.m3u8
"#;
    let HlsPlaylist::Master(m) = parse_playlist(text, "https://cdn/a/master.m3u8").unwrap()
    else {
        panic!("master expected");
    };
    assert_eq!(m.variants.len(), 2);
    assert_eq!(m.variants[0].id, "hls-0");
    assert_eq!(m.variants[0].uri, "https://cdn/a/v/720/main.m3u8");
    assert_eq!(m.variants[1].uri, "https://cdn/live/1080.m3u8");
    assert_eq!(m.variants[1].video_range, "PQ");
}

#[test]
fn parses_media_aes128_key_and_segments() {
    let text = r#"#EXTM3U
#EXT-X-TARGETDURATION:6
#EXT-X-MEDIA-SEQUENCE:42
#EXT-X-KEY:METHOD=AES-128,URI="keys/k.bin",IV=0x0000000000000000000000000000abcd
#EXTINF:5.944,
seg42.ts
#EXT-X-KEY:METHOD=NONE
#EXTINF:6.0,
seg43.ts
#EXT-X-ENDLIST
"#;
    let HlsPlaylist::Media(m) = parse_playlist(text, "https://cdn/live/index.m3u8").unwrap()
    else {
        panic!("media expected");
    };
    assert_eq!(m.target_duration, 6);
    assert_eq!(m.media_sequence, 42);
    assert!(!m.is_live());
    assert_eq!(m.segments.len(), 2);
    assert_eq!(m.segments[0].sequence, 42);
    assert_eq!(m.segments[0].uri, "https://cdn/live/seg42.ts");
    assert_eq!(m.segments[1].key, HlsSegmentKey::Clear);
    match &m.segments[0].key {
        HlsSegmentKey::Aes128 { uri, iv } => {
            assert_eq!(uri, "https://cdn/live/keys/k.bin");
            assert_eq!(iv.unwrap()[14..], [0xab, 0xcd]);
        }
        other => panic!("bad key: {other:?}"),
    }
}

#[test]
fn unsupported_keyformat_is_recorded() {
    let text = r#"#EXTM3U
#EXT-X-KEY:METHOD=SAMPLE-AES,KEYFORMAT="com.apple.streamingkeydelivery",URI="skd://x"
#EXTINF:4,
s.ts
"#;
    let HlsPlaylist::Media(m) = parse_playlist(text, "https://cdn/p.m3u8").unwrap() else {
        panic!("media expected");
    };
    assert!(matches!(m.segments[0].key, HlsSegmentKey::SampleAes { .. }));
}

#[test]
fn parses_audio_renditions_and_fmp4_map() {
    let master = r#"#EXTM3U
#EXT-X-MEDIA:TYPE=AUDIO,GROUP-ID="eac3",NAME="English",LANGUAGE="en",CHANNELS="6",DEFAULT=YES,URI="a/224.m3u8"
#EXT-X-STREAM-INF:BANDWIDTH=1000,CODECS="hvc1,ec-3",AUDIO="eac3"
v/hi.m3u8
"#;
    let HlsPlaylist::Master(m) = parse_playlist(master, "https://cdn/master.m3u8").unwrap()
    else {
        panic!("master expected");
    };
    assert_eq!(m.audio.len(), 1);
    assert_eq!(m.audio[0].uri, "https://cdn/a/224.m3u8");
    assert_eq!(m.variants[0].audio_group.as_deref(), Some("eac3"));

    let media = r#"#EXTM3U
#EXT-X-KEY:METHOD=SAMPLE-AES-CTR,KEYFORMAT="com.microsoft.playready",URI="data:text/plain;base64,x"
#EXT-X-MAP:URI="init.mp4"
#EXTINF:2.0,
0001.m4s
"#;
    let HlsPlaylist::Media(m) = parse_playlist(media, "https://cdn/v/hi.m3u8").unwrap() else {
        panic!("media expected");
    };
    assert_eq!(m.map_uri.as_deref(), Some("https://cdn/v/init.mp4"));
    match &m.segments[0].key {
        HlsSegmentKey::SampleAesCtr { uri, key_format } => {
            assert_eq!(key_format, "com.microsoft.playready");
            assert_eq!(uri.as_deref(), Some("data:text/plain;base64,x"));
        }
        other => panic!("bad key: {other:?}"),
    }
}

#[test]
fn marks_segment_after_discontinuity() {
    let media = r#"#EXTM3U
#EXT-X-MEDIA-SEQUENCE:7
#EXTINF:2.0,
0007.m4s
#EXT-X-DISCONTINUITY
#EXTINF:2.0,
0008.m4s
"#;
    let HlsPlaylist::Media(m) = parse_playlist(media, "https://cdn/v/main.m3u8").unwrap()
    else {
        panic!("media expected");
    };
    assert!(!m.segments[0].discontinuity);
    assert!(m.segments[1].discontinuity);
}
