//! Lists of segments: their numbers, their memory and what they list.

use dv_hls_gateway::segment::{HlsOutput, SubtitleOutput, SubtitleRendition};
use dv_hls_gateway::server::hls::{
    host_prefix, subtitle_name, waits_for_output, PlaylistQuery, SegPath, SegmentRequest,
};
use dv_hls_gateway::task::buffer::{publish, Published};
use dv_hls_gateway::task::manager::{RunMode, TaskState};

const SECOND: i64 = 1_000_000_000;

fn live(window: usize, delay: usize) -> HlsOutput {
    HlsOutput::new(window, 4, "hvc1".into(), "PQ".into(), true, "/p/t".into(), delay)
}

fn first_number(playlist: &str) -> u64 {
    let line = playlist
        .lines()
        .find(|l| l.starts_with("#EXT-X-MEDIA-SEQUENCE:"))
        .unwrap();
    line["#EXT-X-MEDIA-SEQUENCE:".len()..].parse().unwrap()
}

fn listed(playlist: &str) -> Vec<u64> {
    playlist
        .lines()
        .filter(|l| !l.starts_with('#') && l.ends_with(".jpeg"))
        .map(|l| {
            let name = l.rsplit('/').next().unwrap().to_string();
            match (SegPath { id: "t".into(), filename: name }).request() {
                SegmentRequest::Picture(n) => n,
                _ => panic!("a listed name is not served"),
            }
        })
        .collect()
}

#[test]
fn memory_stays_bounded_and_numbers_move_on() {
    let mut hls = live(6, 1);
    let mut last = 0;
    for i in 0..40u64 {
        assert_eq!(hls.push_segment(4 * SECOND, vec![i as u8]), i);
        assert!(hls.segment_count() <= 6 + 1 + 3);
        let p = hls.media_playlist();
        assert!(first_number(&p) >= last);
        last = first_number(&p);
        let names = listed(&p);
        assert!(names.len() <= 6);
        assert!(!names.contains(&i));
        for n in names {
            assert_eq!(hls.get_segment(n).unwrap(), vec![n as u8]);
        }
    }
    assert_eq!(hls.segment_count(), 10);
    assert_eq!(hls.total_produced(), 40);
    assert!(hls.get_segment(29).is_none());
    assert_eq!(hls.get_segment(39).unwrap(), vec![39]);
}

#[test]
fn durations_are_listed_with_their_sign() {
    let mut hls = HlsOutput::new(0, 4, "c".into(), "SDR".into(), false, "/p/x".into(), 0);
    for ns in [-5 * SECOND, -400_000, 2_000_400_000, -1_999_600_000] {
        hls.push_segment(ns, vec![]);
    }
    hls.finish();
    let p = hls.media_playlist();
    let lengths: Vec<&str> = p.lines().filter_map(|l| l.strip_prefix("#EXTINF:")).collect();
    assert_eq!(lengths, ["-5.000,", "-0.000,", "2.000,", "-2.000,"]);
    assert!(p.contains("#EXT-X-TARGETDURATION:4\n"));
}

#[test]
fn a_finished_list_without_window_holds_everything() {
    let mut hls = HlsOutput::new(0, 4, "c".into(), "SDR".into(), false, "/p/x".into(), 0);
    for i in 0..30u64 {
        hls.push_segment(SECOND * (i as i64 + 1), vec![i as u8]);
    }
    hls.finish();
    let p = hls.media_playlist();
    assert_eq!(listed(&p), (0..30).collect::<Vec<u64>>());
    assert!(p.contains("#EXT-X-TARGETDURATION:30\n"));
    assert!(p.contains("#EXT-X-PLAYLIST-TYPE:VOD\n") || p.contains("#EXT-X-ENDLIST"));
    assert!(p.contains("/p/x/picture-0.jpeg"));
    hls.clear_live_segments_keep_sequence();
    assert_eq!(hls.segment_count(), 30);
}

#[test]
fn clearing_a_live_list_keeps_its_numbers() {
    let mut hls = live(3, 1);
    for _ in 0..5 {
        hls.push_segment(SECOND, vec![1]);
    }
    hls.clear_live_segments_keep_sequence();
    assert_eq!(hls.segment_count(), 0);
    assert_eq!(first_number(&hls.media_playlist()), 5);
    assert_eq!(hls.push_segment_discontinuity(SECOND, vec![2]), 5);
    hls.push_segment(SECOND, vec![3]);
    hls.set_publish_delay_segments(0);
    let p = hls.media_playlist_absolute("http://h/p/t");
    assert_eq!(listed(&p), [5]);
    assert!(p.contains("#EXT-X-DISCONTINUITY\n#EXTINF:1.000,\nhttp://h/p/t/picture-5.jpeg\n"));
}

#[test]
fn published_pairs_carry_one_number() {
    let mut hls = HlsOutput::new(0, 4, "c".into(), "SDR".into(), false, "/p/x".into(), 0);
    let mut subtitles = SubtitleOutput::new(0, 4, false, 0);
    for (i, broken) in [false, true].into_iter().enumerate() {
        publish(
            &mut hls,
            &mut subtitles,
            true,
            Published {
                duration_ns: 4 * SECOND,
                data: vec![i as u8],
                subtitle: format!("cue {i}"),
                discontinuity: broken,
            },
        );
    }
    assert_eq!(hls.get_segment(1).unwrap(), vec![1]);
    assert_eq!(subtitles.get_segment(1).unwrap(), "WEBVTT\n\ncue 1\n");
    assert_eq!(hls.media_playlist().matches("#EXT-X-DISCONTINUITY\n").count(), 1);
    assert!(subtitles.playlist_absolute("x").contains("x/xyz-1.txt"));
    publish(
        &mut hls,
        &mut subtitles,
        false,
        Published { duration_ns: SECOND, data: vec![], subtitle: "c".into(), discontinuity: false },
    );
    assert_eq!((hls.segment_count(), subtitles.segment_count()), (3, 2));
}

#[test]
fn texts_are_held_back_and_cleared_as_pictures_are() {
    let mut subtitles = SubtitleOutput::new(6, 4, true, 1);
    subtitles.push_segment(SECOND, "a".into());
    subtitles.push_segment(SECOND, "b".into());
    assert!(subtitles.playlist_absolute("x").contains("x/xyz-0.txt"));
    subtitles.set_publish_delay_segments(5);
    assert!(!subtitles.playlist_absolute("x").contains("xyz-0.txt"));
    subtitles.clear_live_segments_keep_sequence();
    assert_eq!(subtitles.push_segment_discontinuity(SECOND, String::new()), 2);
    subtitles.finish();
    assert!(subtitles.get_segment(7).is_none());
}

#[test]
fn master_states_what_it_knows() {
    let hls = live(6, 1);
    let p = hls.master_playlist_absolute(
        "http://h/p/t",
        5_000,
        1920,
        1080,
        Some(SubtitleRendition { name: "a\"b", lang: "en" }),
    );
    assert!(p.contains("BANDWIDTH=5000"));
    assert!(p.contains("RESOLUTION=1920x1080"));
    assert!(p.contains("CODECS=\"hvc1\""));
    assert!(p.contains("VIDEO-RANGE=PQ"));
    assert!(p.contains("a\\\"b"));
    assert!(hls.master_playlist(1, 2, 3).contains("RESOLUTION=2x3"));
}

#[test]
fn names_ask_for_pictures_and_texts() {
    let ask = |n: &str| (SegPath { id: "t".into(), filename: n.into() }).request();
    assert_eq!(ask("picture-17.jpeg"), SegmentRequest::Picture(17));
    assert_eq!(ask("xyz-17.txt"), SegmentRequest::Text(17));
    assert_eq!(ask("picture-.jpeg"), SegmentRequest::Unknown);
    assert_eq!(ask("picture-17.txt"), SegmentRequest::Unknown);
    assert_eq!(ask("picture-99999999999999999999.jpeg"), SegmentRequest::Unknown);
}

#[test]
fn prefixes_follow_the_query_and_the_host() {
    assert_eq!(host_prefix(None, None), "http://localhost");
    assert_eq!(host_prefix(Some("h:1"), Some("https")), "https://h:1");
    let plain = PlaylistQuery { url: None };
    assert_eq!(plain.prefix(Some("h"), None, "t"), "http://h/p/t");
    let cdn = PlaylistQuery { url: Some("https://cdn/p/t//".into()) };
    assert_eq!(cdn.prefix(Some("h"), None, "t"), "https://cdn/p/t");
    assert_eq!(subtitle_name(""), ("Subtitles".to_string(), "und".to_string()));
    assert_eq!(subtitle_name("en"), ("en".to_string(), "en".to_string()));
}

#[test]
fn only_running_tasks_on_demand_are_waited_for() {
    assert!(waits_for_output(RunMode::OnDemand, TaskState::Running, 0, 0));
    assert!(waits_for_output(RunMode::OnDemand, TaskState::Parsing, 0, 3_999));
    assert!(!waits_for_output(RunMode::OnDemand, TaskState::Running, 0, 4_000));
    assert!(!waits_for_output(RunMode::OnDemand, TaskState::Running, 1, 0));
    assert!(!waits_for_output(RunMode::OnDemand, TaskState::Paused, 0, 0));
    assert!(!waits_for_output(RunMode::Always, TaskState::Running, 0, 0));
}
