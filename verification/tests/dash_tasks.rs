//! Tasks on DASH sources.

use dv_hls_gateway::mpd::{Representation, SegmentRef, TrackKind};
use dv_hls_gateway::task::aggregate::aggregate_audio_ready;
use dv_hls_gateway::task::audio_gap::trim_or_close_audio_gap;
use dv_hls_gateway::task::grouping::{build_short_source_live_jobs, short_source_group_size};
use dv_hls_gateway::task::init::detect_audio_codec;
use dv_hls_gateway::task::matching::match_audio_segment_by_time;
use dv_hls_gateway::task::planning::initial_next_number;
use dv_hls_gateway::ts::muxer::AudioUnit;
use dv_hls_gateway::ts::AudioCodec;

fn seg(number: u64, duration_ts: u64) -> SegmentRef {
    SegmentRef {
        number,
        url: format!("seg-{number}.m4s"),
        duration_ts,
    }
}

fn video_rep(timescale: u32, segments: Vec<SegmentRef>) -> Representation {
    Representation {
        id: "v".into(),
        kind: TrackKind::Video,
        codecs: "hvc1".into(),
        bandwidth: 1,
        width: 1920,
        height: 1080,
        lang: String::new(),
        timescale,
        init_url: String::new(),
        manifest_kids: Vec::new(),
        media_template: "v-$Time$.m4s".into(),
        start_number: 1,
        segments,
        total_duration_ts: 0,
    }
}

fn audio_rep(timescale: u32, segments: Vec<SegmentRef>) -> Representation {
    Representation {
        id: "a".into(),
        kind: TrackKind::Audio,
        codecs: "ec-3".into(),
        bandwidth: 1,
        width: 0,
        height: 0,
        lang: "de".into(),
        timescale,
        init_url: String::new(),
        manifest_kids: Vec::new(),
        media_template: "a-$Time$.m4s".into(),
        start_number: 1,
        segments,
        total_duration_ts: 0,
    }
}

#[test]
fn aggregate_audio_ready_rejects_short_audio() {
    assert!(aggregate_audio_ready(true, 460_800, 48_000, 5_760, 600));
    assert!(!aggregate_audio_ready(true, 368_640, 48_000, 5_760, 600));
    assert!(aggregate_audio_ready(false, 0, 48_000, 5_760, 600));
}

#[test]
fn mpd_audio_codec_detection_distinguishes_ac3_ec3_and_aac() {
    assert_eq!(detect_audio_codec("ac-3"), AudioCodec::Ac3);
    assert_eq!(detect_audio_codec("ec-3"), AudioCodec::Ec3);
    assert_eq!(detect_audio_codec("mp4a.40.2"), AudioCodec::AacAdts);
}

#[test]
fn time_template_audio_match_uses_seconds_not_index() {
    let video = seg(1_069_949_867_522, 1_152);
    let audio = audio_rep(
        48_000,
        vec![
            seg(85_595_989_401_792 - 92_160, 92_160),
            seg(85_595_989_401_792, 92_160),
            seg(85_595_989_401_792 + 92_160, 92_160),
        ],
    );
    let matched = match_audio_segment_by_time(&video, 600, &audio).unwrap();
    assert_eq!(matched.number, 85_595_989_401_792);
}

#[test]
fn time_template_audio_match_uses_interval_overlap_for_variable_audio() {
    let video = seg(17_833_422_517_292_555, 20_020_000);
    let audio = audio_rep(
        10_000_000,
        vec![
            seg(17_833_422_505_215_777, 23_466_667),
            seg(17_833_422_528_682_444, 9_386_667),
        ],
    );
    let matched = match_audio_segment_by_time(&video, 10_000_000, &audio).unwrap();
    assert_eq!(matched.number, 17_833_422_505_215_777);
}

#[test]
fn time_template_audio_match_prefers_best_overlap_over_midpoint() {
    let video = seg(17_833_435_129_892_555, 20_020_000);
    let audio = audio_rep(
        10_000_000,
        vec![
            seg(17_833_435_117_389_111, 22_400_000),
            seg(17_833_435_139_789_111, 11_200_000),
        ],
    );
    let matched = match_audio_segment_by_time(&video, 10_000_000, &audio).unwrap();
    assert_eq!(matched.number, 17_833_435_139_789_111);
}

#[test]
fn short_source_live_jobs_publish_only_complete_telus_style_groups() {
    let dur = 20_020_000;
    let video = video_rep(10_000_000, (0..6).map(|i| seg(i * dur, dur)).collect());
    let audio = audio_rep(10_000_000, (0..4).map(|i| seg(i * dur, dur)).collect());

    let group_size = short_source_group_size(&video).unwrap();
    let plan = build_short_source_live_jobs(&video, Some(&audio), None, true, 0, group_size);

    assert_eq!(group_size, 4);
    assert_eq!(plan.jobs.len(), 4);
    assert_eq!(
        plan.jobs.iter().map(|j| j.num).collect::<Vec<_>>(),
        vec![0, dur, dur * 2, dur * 3]
    );
    assert!(plan.blocked_on_audio.is_none());
    assert!(!plan.skipped_incomplete_head);
}

#[test]
fn short_source_live_jobs_hold_tail_until_audio_group_is_complete() {
    let dur = 20_020_000;
    let video = video_rep(10_000_000, (0..4).map(|i| seg(i * dur, dur)).collect());
    let audio = audio_rep(10_000_000, (0..2).map(|i| seg(i * dur, dur)).collect());

    let plan = build_short_source_live_jobs(&video, Some(&audio), None, true, 0, 4);

    assert!(plan.jobs.is_empty());
    assert_eq!(plan.blocked_on_audio.as_ref().map(|b| b.seg), Some(0));
    assert_eq!(
        plan.blocked_on_audio.as_ref().map(|b| b.skip_to),
        Some(dur * 3 + 1)
    );
    assert!(!plan.skipped_incomplete_head);
}

#[test]
fn short_source_live_jobs_skip_incomplete_head_before_complete_group() {
    let dur = 20_020_000;
    let video = video_rep(10_000_000, (0..8).map(|i| seg(i * dur, dur)).collect());
    let audio = audio_rep(10_000_000, (0..8).map(|i| seg(i * dur, dur)).collect());

    let plan = build_short_source_live_jobs(&video, Some(&audio), None, true, dur, 4);

    assert_eq!(plan.jobs.len(), 4);
    assert_eq!(
        plan.jobs.iter().map(|j| j.num).collect::<Vec<_>>(),
        vec![dur * 4, dur * 5, dur * 6, dur * 7]
    );
    assert!(plan.skipped_incomplete_head);
    assert!(plan.blocked_on_audio.is_none());
}

#[test]
fn live_initial_backfill_uses_segment_count_for_time_template_numbers() {
    let video = Representation {
        id: "v".into(),
        kind: TrackKind::Video,
        codecs: "hvc1".into(),
        bandwidth: 1,
        width: 1,
        height: 1,
        lang: String::new(),
        timescale: 10_000_000,
        init_url: String::new(),
        manifest_kids: Vec::new(),
        media_template: "v-$Time$.m4s".into(),
        start_number: 1,
        segments: vec![
            seg(17832777776145666, 20_020_000),
            seg(17832777796165666, 20_020_000),
            seg(17832777816185666, 20_020_000),
            seg(17832777836205666, 20_020_000),
            seg(17832777856225666, 20_020_000),
        ],
        total_duration_ts: 0,
    };

    assert_eq!(
        initial_next_number(&video, true, 0, 3),
        Some(17832777816185666)
    );
}

#[test]
fn trims_overlapping_audio_frames_before_aggregate_append() {
    let acc = vec![AudioUnit {
        data: Vec::new(),
        pts: 1_000,
    }];
    let mut next = vec![
        AudioUnit {
            data: Vec::new(),
            pts: 1_064,
        },
        AudioUnit {
            data: Vec::new(),
            pts: 1_096,
        },
        AudioUnit {
            data: Vec::new(),
            pts: 1_128,
        },
    ];
    let mut durations = vec![32, 32, 32];

    let kept = trim_or_close_audio_gap(&acc, 96, &mut next, &mut durations, 1000);

    assert_eq!(
        next.iter().map(|a| a.pts).collect::<Vec<_>>(),
        vec![1_096, 1_128]
    );
    assert_eq!(kept, 64);
}

#[test]
fn closes_small_audio_gap_before_aggregate_append() {
    let acc = vec![AudioUnit {
        data: Vec::new(),
        pts: 1_000,
    }];
    let mut next = vec![AudioUnit {
        data: Vec::new(),
        pts: 1_100,
    }];
    let mut durations = vec![32];

    let kept = trim_or_close_audio_gap(&acc, 96, &mut next, &mut durations, 1000);

    assert_eq!(next[0].pts, 1_096);
    assert_eq!(kept, 32);
}
