//! Segments in memory and the playlists over them.

use dv_hls_gateway::segment::{HlsOutput, SubtitleOutput, SubtitleRendition};

const SECONDS: i64 = 1_000_000_000;

fn output(window: usize, delay: usize) -> HlsOutput {
    HlsOutput::new(
        window,
        4,
        "hvc1,ec-3".to_string(),
        "PQ".to_string(),
        true,
        "/p/test".to_string(),
        delay,
    )
}

#[test]
fn live_publish_delay_hides_latest_segment() {
    let mut hls = output(3, 1);
    for _ in 0..5 {
        hls.push_segment(SECONDS * 4, b"ts".to_vec());
    }

    let playlist = hls.media_playlist();
    assert!(playlist.contains("#EXT-X-MEDIA-SEQUENCE:1\n"));
    assert!(playlist.contains("picture-1.jpeg"));
    assert!(playlist.contains("picture-3.jpeg"));
    assert!(!playlist.contains("picture-4.jpeg"));
    assert!(hls.get_segment(4).is_some());
}

#[test]
fn live_gc_keeps_grace_and_delay_outside_playlist() {
    let mut hls = output(3, 1);
    for _ in 0..8 {
        hls.push_segment(SECONDS * 4, b"ts".to_vec());
    }

    let playlist = hls.media_playlist();
    assert!(playlist.contains("#EXT-X-MEDIA-SEQUENCE:4\n"));
    assert!(!playlist.contains("picture-3.jpeg"));
    assert!(playlist.contains("picture-4.jpeg"));
    assert!(playlist.contains("picture-6.jpeg"));
    assert!(!playlist.contains("picture-7.jpeg"));
    assert!(hls.get_segment(1).is_some());
    assert!(hls.get_segment(7).is_some());
    assert!(hls.get_segment(0).is_none());
}

#[test]
fn discontinuity_is_written_before_marked_segment() {
    let mut hls = HlsOutput::new(0, 4, "avc1".into(), "SDR".into(), false, "/p/x".into(), 0);
    hls.push_segment(SECONDS * 4, b"a".to_vec());
    hls.push_segment_discontinuity(SECONDS * 4, b"b".to_vec());

    let playlist = hls.media_playlist();
    let marker = playlist.find("#EXT-X-DISCONTINUITY").unwrap();
    let segment = playlist.find("picture-1.jpeg").unwrap();
    assert!(marker < segment);
}

#[test]
fn clear_live_segments_keeps_sequence_moving_forward() {
    let mut hls = output(6, 1);
    hls.push_segment(SECONDS * 4, b"a".to_vec());
    hls.push_segment(SECONDS * 4, b"b".to_vec());
    hls.clear_live_segments_keep_sequence();

    let empty_playlist = hls.media_playlist();
    assert!(empty_playlist.contains("#EXT-X-MEDIA-SEQUENCE:2\n"));
    assert!(!empty_playlist.contains("picture-0.jpeg"));

    hls.push_segment(SECONDS * 4, b"c".to_vec());
    hls.push_segment(SECONDS * 4, b"d".to_vec());
    let playlist = hls.media_playlist();
    assert!(playlist.contains("picture-2.jpeg"));
    assert!(!playlist.contains("picture-3.jpeg"));
    assert!(!playlist.contains("picture-0.jpeg"));
}

#[test]
fn master_playlist_uses_obfuscated_child_paths() {
    let hls = output(6, 1);
    let playlist = hls.master_playlist_absolute(
        "http://127.0.0.1:37201/p/task",
        8_000_000,
        1920,
        1080,
        Some(SubtitleRendition {
            name: "English",
            lang: "en",
        }),
    );

    assert!(playlist.contains("URI=\"http://127.0.0.1:37201/p/task/xyz\""));
    assert!(playlist.contains("http://127.0.0.1:37201/p/task/api\n"));
    assert!(!playlist.contains("/media"));
    assert!(!playlist.contains("/subtitles"));
}

#[test]
fn subtitle_playlist_uses_txt_segments() {
    let mut subtitles = SubtitleOutput::new(6, 4, true, 1);
    subtitles.push_segment(SECONDS * 4, "00:00:00.000 --> 00:00:01.000\nhello".into());
    subtitles.push_segment(SECONDS * 4, "00:00:01.000 --> 00:00:02.000\nworld".into());

    let playlist = subtitles.playlist_absolute("http://127.0.0.1:37201/p/task");

    assert!(playlist.contains("http://127.0.0.1:37201/p/task/xyz-0.txt"));
    assert!(!playlist.contains("subtitle-"));
    assert!(!playlist.contains(".vtt"));
}
