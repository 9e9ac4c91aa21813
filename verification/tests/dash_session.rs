//! A task on a manifest, from its tracks to what is published.

use dv_hls_gateway::clock::ClockState;
use dv_hls_gateway::crypto::cenc::KeyStore;
use dv_hls_gateway::mp4::ParamSets;
use dv_hls_gateway::mp4::TrackEncryption;
use dv_hls_gateway::mpd::{MpdInfo, Representation, SegmentRef, TrackKind};
use dv_hls_gateway::task::aggregate::{Aggregate, DownloadedSegment, Openers, SegmentError};
use dv_hls_gateway::task::batch::{hls_skip_to_after, Batch, Step};
use dv_hls_gateway::task::buffer::{
    align_video, shift, timeline_rewound, Line, Published, UNSET_ORIGIN,
};
use dv_hls_gateway::task::content::{
    judge_content, media_content_retry_delay, validate_media_coverage, ContentError, ContentStep,
};
use dv_hls_gateway::task::coverage::{merged_interval_duration, Interval};
use dv_hls_gateway::task::grouping::build_short_source_live_jobs;
use dv_hls_gateway::task::init::{
    detect_video_range, min_cts, read_audio_init, read_video_init,
};
use dv_hls_gateway::task::manager::{KeyMode, SourceKind, TrackSelection};
use dv_hls_gateway::task::matching::match_audio_segment_by_time;
use dv_hls_gateway::task::mpd_keys::{
    build_mpd_audio_decryptor, build_mpd_video_decryptor, effective_mpd_kid, key_changed, pick_key,
    required_mpd_kids,
};
use dv_hls_gateway::task::mpd_session::{
    select_tracks, Advance, MpdSetup, Session, TrackKids, Tracks,
};
use dv_hls_gateway::task::planning::{
    initial_next_number, plan_round, refresh_segment_duration, representation_segment_duration,
    AudioWait,
};
use dv_hls_gateway::time::Span;
use dv_hls_gateway::ts::muxer::TsMuxer;
use dv_hls_gateway::ts::{AudioCodec, VideoCodec, VideoRange};

const SECOND: i64 = 1_000_000_000;

fn boxed(typ: &[u8; 4], payload: &[u8]) -> Vec<u8> {
    let mut v = ((payload.len() + 8) as u32).to_be_bytes().to_vec();
    v.extend_from_slice(typ);
    v.extend_from_slice(payload);
    v
}

/// A fragment whose samples have these durations and bytes.
fn fragment(tfdt: Option<u64>, samples: &[(u32, Vec<u8>)]) -> Vec<u8> {
    let mut trun = vec![0u8, 0, 0x03, 0x01];
    trun.extend_from_slice(&(samples.len() as u32).to_be_bytes());
    trun.extend_from_slice(&[0; 4]);
    let mut mdat = Vec::new();
    for (duration, data) in samples {
        trun.extend_from_slice(&duration.to_be_bytes());
        trun.extend_from_slice(&(data.len() as u32).to_be_bytes());
        mdat.extend_from_slice(data);
    }
    let mut traf = Vec::new();
    if let Some(t) = tfdt {
        let mut p = vec![1u8, 0, 0, 0];
        p.extend_from_slice(&t.to_be_bytes());
        traf.extend_from_slice(&boxed(b"tfdt", &p));
    }
    traf.extend_from_slice(&boxed(b"trun", &trun));
    let mut out = boxed(b"moof", &boxed(b"traf", &traf));
    out.extend_from_slice(&boxed(b"mdat", &mdat));
    out
}

/// One picture of this many ticks.
fn picture(tfdt: u64, ticks: u32) -> Vec<u8> {
    let mut sample = 3u32.to_be_bytes().to_vec();
    sample.extend_from_slice(&[0x28, 0x01, 0x77]);
    fragment(Some(tfdt), &[(ticks, sample)])
}

/// One frame of sound of this many ticks.
fn sound(tfdt: u64, ticks: u32) -> Vec<u8> {
    fragment(Some(tfdt), &[(ticks, vec![0x0b, 0x77, 5])])
}

fn unset() -> Line {
    Line { origin: UNSET_ORIGIN, total: 0 }
}

fn aggregate(audio_required: bool) -> Aggregate {
    let muxer = TsMuxer::new(
        &ParamSets::default(),
        VideoCodec::Hevc,
        None,
        Some(AudioCodec::Ec3),
        100,
        ClockState::new(0, 10, 90_000),
    );
    Aggregate::new(muxer, VideoCodec::Hevc, None, 10, 1_000, audio_required, unset(), unset())
}

fn clear() -> Openers {
    Openers { video: None, audio: None, subtitle: None }
}

fn downloaded(num: u64, video: Vec<u8>, audio: Option<Vec<u8>>, ticks: u64) -> DownloadedSegment {
    DownloadedSegment { num, video, audio, subtitle: None, dur_ts: ticks }
}

fn durations(p: &[Published]) -> Vec<(i64, bool)> {
    p.iter().map(|x| (x.duration_ns, x.discontinuity)).collect()
}

#[test]
fn long_segments_are_published_at_once_and_short_ones_together() {
    let mut a = aggregate(false);
    assert!(a.process_segment(&downloaded(1, picture(0, 50), None, 50), &clear()).is_ok());
    let p = a.take_published();
    assert_eq!(durations(&p), [(5 * SECOND, false)]);
    assert_eq!(p[0].data.len() % 188, 0);
    assert!(a.take_published().is_empty());
    for i in 0..4u64 {
        let seg = downloaded(2 + i, picture(50 + 20 * i, 20), None, 20);
        assert!(a.process_segment(&seg, &clear()).is_ok());
    }
    assert_eq!(durations(&a.take_published()), [(8 * SECOND, false)]);
    let seg = downloaded(9, picture(130, 20), None, 20);
    assert!(a.process_segment(&seg, &clear()).is_ok());
    assert!(a.take_published().is_empty());
    a.finish();
    assert_eq!(durations(&a.take_published()), [(2 * SECOND, false)]);
}

#[test]
fn what_is_published_has_its_sound() {
    let mut a = aggregate(true);
    let short = downloaded(1, picture(0, 50), Some(sound(0, 400)), 50);
    assert!(a.process_segment(&short, &clear()).is_ok());
    assert!(a.take_published().is_empty());
    assert!(!a.is_audio_ready());
    let more = downloaded(2, picture(50, 50), Some(sound(400, 600)), 50);
    assert!(a.process_segment(&more, &clear()).is_ok());
    assert_eq!(durations(&a.take_published()), [(10 * SECOND, false)]);
    assert!(a.process_segment(&short, &clear()).is_ok());
    a.mark_boundary();
    assert!(a.take_published().is_empty());
    a.flush();
    assert!(a.take_published().is_empty());
}

#[test]
fn a_clock_that_goes_back_starts_anew() {
    let mut a = aggregate(false);
    assert!(a.process_segment(&downloaded(1, picture(500, 20), None, 20), &clear()).is_ok());
    assert!(a.process_segment(&downloaded(2, picture(10, 50), None, 50), &clear()).is_ok());
    assert_eq!(durations(&a.take_published()), [(2 * SECOND, false), (5 * SECOND, true)]);
    assert_eq!(a.video_line.origin, 10);
    a.mark_boundary();
    assert_eq!(a.video_line.origin, UNSET_ORIGIN);
    assert!(a.process_segment(&downloaded(3, picture(60, 50), None, 50), &clear()).is_ok());
    assert_eq!(durations(&a.take_published()), [(5 * SECOND, true)]);
}

#[test]
fn segments_are_refused_by_reason() {
    let mut a = aggregate(true);
    let mut refused = |video: Vec<u8>, audio: Option<Vec<u8>>| {
        a.process_segment(&downloaded(7, video, audio, 50), &clear()).unwrap_err()
    };
    let mut cut = fragment(Some(0), &[(1, vec![1; 6]), (1, vec![2; 6])]);
    let n = cut.len();
    cut.truncate(n - 8);
    let at = n - 20;
    cut[at..at + 4].copy_from_slice(&12u32.to_be_bytes());
    assert_eq!(refused(vec![1, 2, 3], None), SegmentError::VideoUnreadable);
    assert_eq!(refused(cut.clone(), None), SegmentError::VideoTruncated);
    assert_eq!(refused(picture(0, 1), Some(vec![0])), SegmentError::AudioUnreadable);
    assert_eq!(refused(picture(0, 1), Some(fragment(None, &[]))), SegmentError::AudioEmpty);
    assert_eq!(refused(picture(0, 1), Some(cut)), SegmentError::AudioTruncated);
    assert_eq!(refused(picture(0, 1), None), SegmentError::AudioMissing);
    assert_eq!(SegmentError::AudioMissing.message(7), "audio seg #7 missing");
    assert_eq!(SegmentError::VideoUnreadable.message(7), "parse video seg #7 failed");
    assert_eq!(SegmentError::AudioEmpty.message(7), "audio seg #7 has no samples");
}

#[test]
fn units_are_moved_behind_what_is_held() {
    assert_eq!(shift(100, 40, 70), 130);
    assert_eq!(shift(5, 40, 10), 0);
    assert!(timeline_rewound(Some(5), Some(4)));
    assert!(!timeline_rewound(None, Some(4)));
    let mut line = unset();
    assert_eq!(line.place(Some(70)), 0);
    assert_eq!(line.place(Some(90)), 20);
    assert_eq!(line.place(Some(10)), 0);
    assert_eq!(line.place(None), 0);
    line.extend(30);
    assert_eq!(line.place(None), 30);
    let unit = |dts: u64| dv_hls_gateway::hevc::annexb::AccessUnit {
        nals: vec![],
        is_irap: false,
        dts,
        cts_offset: 0,
        codec: VideoCodec::Hevc,
    };
    let mut units = vec![unit(500), unit(520)];
    align_video(&[unit(100)], 40, &mut units);
    assert_eq!((units[0].dts, units[1].dts), (140, 160));
}

#[test]
fn a_batch_is_processed_in_order() {
    let mut b: Batch<&str> = Batch::new(vec![3, 4, 5]);
    b.arrived(4, "four");
    assert!(matches!(b.step(false), Step::Wait));
    b.arrived(3, "three");
    assert!(matches!(b.step(true), Step::Wait));
    assert!(matches!(b.step(false), Step::Process(3, "three")));
    b.processed();
    assert!(matches!(b.step(false), Step::Process(4, "four")));
    b.processed();
    assert_eq!((b.next_number(), b.is_done()), (5, false));
    b.lost(5);
    assert!(matches!(b.step(false), Step::Lost(5)));
    assert_eq!(b.skip_to(), 6);
    assert_eq!(hls_skip_to_after(&[3, 9], 0, 3), 9);
    assert_eq!(hls_skip_to_after(&[3, 9], 1, 9), 10);
}

#[test]
fn incomplete_content_is_fetched_again_six_times() {
    let whole = picture(0, 90);
    assert_eq!(validate_media_coverage(&whole, Some(100)), Ok(()));
    assert_eq!(
        validate_media_coverage(&whole, Some(101)),
        Err(ContentError::TooShort { actual: 90, expected: 101 })
    );
    assert_eq!(validate_media_coverage(&whole, None), Ok(()));
    assert_eq!(validate_media_coverage(&[1], None), Err(ContentError::NoTable));
    assert_eq!(validate_media_coverage(&fragment(None, &[]), None), Err(ContentError::NoSamples));
    assert_eq!(
        (ContentError::TooShort { actual: 1, expected: 2 }).message(),
        "duration 1/2 below coverage threshold"
    );
    assert_eq!(judge_content(1, &whole, None), ContentStep::Accept);
    assert_eq!(judge_content(1, &[], None), ContentStep::Retry(250));
    assert_eq!(judge_content(5, &[], None), ContentStep::Retry(1_000));
    assert_eq!(judge_content(6, &[], None), ContentStep::GiveUp(ContentError::NoTable));
    assert_eq!(media_content_retry_delay(2), 500);
}

#[test]
fn overlapping_stretches_count_once() {
    let v = [
        Interval { from: 10, to: 20 },
        Interval { from: 0, to: 5 },
        Interval { from: 15, to: 30 },
        Interval { from: 16, to: 18 },
    ];
    assert_eq!(merged_interval_duration(&v), 25);
    assert_eq!(merged_interval_duration(&[]), 0);
}

fn rep(id: &str, kind: TrackKind, template: &str, segments: &[(u64, u64)]) -> Representation {
    Representation {
        id: id.into(),
        kind,
        codecs: if kind == TrackKind::Audio { "ec-3".into() } else { "hvc1".into() },
        bandwidth: 1,
        width: 1,
        height: 1,
        lang: "".into(),
        timescale: if kind == TrackKind::Audio { 100 } else { 10 },
        init_url: format!("init-{id}"),
        manifest_kids: vec![],
        media_template: template.into(),
        start_number: 1,
        segments: segments
            .iter()
            .map(|(number, duration_ts)| SegmentRef {
                number: *number,
                url: format!("{id}-{number}"),
                duration_ts: *duration_ts,
            })
            .collect(),
        total_duration_ts: 0,
    }
}

fn manifest(audio: &[(u64, u64)]) -> MpdInfo {
    MpdInfo {
        base_url: "".into(),
        representations: vec![
            rep("v", TrackKind::Video, "$Number$", &[(1, 50), (2, 50), (3, 50)]),
            rep("a", TrackKind::Audio, "$Number$", audio),
        ],
        is_dynamic: true,
    }
}

fn selection() -> TrackSelection {
    TrackSelection {
        mpd_url: "http://h/m".into(),
        source_kind: SourceKind::Mpd,
        keys: "".into(),
        key_mode: KeyMode::Static,
        video_rep_id: "v".into(),
        audio_rep_id: Some("a".into()),
        enable_subtitles: false,
        subtitle_rep_id: None,
    }
}

fn session(info: &MpdInfo) -> (Session, Openers) {
    let tracks: Tracks = select_tracks(info, &selection()).unwrap();
    let setup = MpdSetup::read(KeyMode::Static, &tracks, &[], None, None);
    assert!(setup.required.is_empty());
    let openers = setup.open(&KeyStore::default()).unwrap();
    (Session::start(tracks, setup, None, true, true, true, 1, unset(), unset()), openers)
}

#[test]
fn jobs_come_with_their_sound_or_wait_for_it() {
    let info = manifest(&[(1, 500), (2, 500)]);
    let (mut s, openers) = session(&info);
    let jobs = s.plan();
    let got: Vec<(u64, Option<&str>)> = jobs.iter().map(|j| (j.num, j.aurl.as_deref())).collect();
    assert_eq!(got, [(1, Some("a-1")), (2, Some("a-2"))]);
    let mut batch = Batch::new(jobs.iter().map(|j| j.num).collect());
    assert_eq!(s.advance(&mut batch, &openers, false), Advance::Wait);
    batch.arrived(2, downloaded(2, picture(50, 50), Some(sound(500, 500)), 50));
    batch.arrived(1, downloaded(1, picture(0, 50), Some(sound(0, 500)), 50));
    assert_eq!(s.advance(&mut batch, &openers, false), Advance::Processed(1));
    assert_eq!(s.advance(&mut batch, &openers, false), Advance::Processed(2));
    assert_eq!(s.advance(&mut batch, &openers, false), Advance::Wait);
    s.end_batch(&batch);
    assert_eq!(s.next_number, 3);
    assert_eq!(
        durations(&s.aggregate.take_published()),
        [(5 * SECOND, false), (5 * SECOND, false)]
    );
    for _ in 0..2 {
        assert!(s.plan().is_empty());
        assert_eq!(s.next_number, 3);
    }
    assert!(s.plan().is_empty());
    assert_eq!(s.next_number, 4);
    let mut fresh = manifest(&[(1, 500), (2, 500), (4, 500)]);
    fresh.representations[0] =
        rep("v", TrackKind::Video, "$Number$", &[(2, 50), (3, 50), (4, 50)]);
    s.refresh(&fresh, &selection());
    let jobs = s.plan();
    assert_eq!(jobs.len(), 1);
    let mut batch = Batch::new(vec![4]);
    batch.arrived(4, downloaded(4, picture(150, 50), Some(sound(1_500, 500)), 50));
    assert_eq!(s.advance(&mut batch, &openers, false), Advance::Processed(4));
    assert_eq!(durations(&s.aggregate.take_published()), [(5 * SECOND, true)]);
}

#[test]
fn lost_and_refused_segments_are_reported() {
    let info = manifest(&[(1, 500), (2, 500)]);
    let (mut s, openers) = session(&info);
    let mut batch = Batch::new(vec![1, 2]);
    batch.lost(1);
    assert_eq!(s.advance(&mut batch, &openers, false), Advance::Lost(1));
    s.end_batch(&batch);
    assert_eq!(s.next_number, 1);
    let mut batch = Batch::new(vec![1]);
    batch.arrived(1, downloaded(1, picture(0, 50), None, 50));
    assert_eq!(
        s.advance(&mut batch, &openers, false),
        Advance::Refused(1, SegmentError::AudioMissing)
    );
}

#[test]
fn a_new_key_ends_what_is_held() {
    let info = manifest(&[(1, 200)]);
    let (mut s, openers) = session(&info);
    s.kids = TrackKids { video: Some("a".into()), audio: None, subtitle: None };
    let mut batch = Batch::new(vec![1]);
    batch.arrived(1, downloaded(1, picture(0, 20), Some(sound(0, 200)), 20));
    assert_eq!(s.advance(&mut batch, &openers, false), Advance::Processed(1));
    assert!(s.aggregate.take_published().is_empty());
    s.rekey(TrackKids { video: Some("a".into()), audio: Some("c".into()), subtitle: None }, None);
    assert!(s.aggregate.take_published().is_empty());
    s.rekey(TrackKids { video: Some("b".into()), audio: None, subtitle: None }, None);
    assert_eq!(durations(&s.aggregate.take_published()), [(2 * SECOND, false)]);
    assert!(key_changed(&Some("a".into()), &Some("b".into())));
    assert!(!key_changed(&None, &Some("b".into())));
}

#[test]
fn tracks_are_found_by_name_and_kind() {
    let info = manifest(&[(1, 500)]);
    let mut sel = selection();
    sel.video_rep_id = "a".into();
    assert!(select_tracks(&info, &sel).is_none());
    sel = selection();
    sel.audio_rep_id = Some("v".into());
    let t = select_tracks(&info, &sel).unwrap();
    assert!(t.audio.is_none());
    assert_eq!((t.audio_rate(), t.subtitle_rate()), (48_000, 1_000));
}

#[test]
fn rounds_of_a_finished_manifest_take_everything() {
    let info = manifest(&[(1, 500)]);
    let r = plan_round(
        &info.representations[0],
        None,
        None,
        false,
        false,
        false,
        2,
        AudioWait::none(),
    );
    assert_eq!(r.jobs.iter().map(|j| j.num).collect::<Vec<_>>(), [2, 3]);
    assert!(!r.boundary);
    let w = AudioWait::none().wait_for(4);
    assert_eq!((w.refreshes, w.wait_for(4).refreshes, w.wait_for(5).refreshes), (1, 2, 1));
    let v = &info.representations[0];
    assert_eq!(representation_segment_duration(v), Span { ticks: 50, scale: 10 });
    assert_eq!(refresh_segment_duration(v).to_ns(), 5 * SECOND);
    assert_eq!(initial_next_number(v, false, 0, 9), Some(1));
    assert_eq!(initial_next_number(v, false, 2, 9), Some(2));
    assert_eq!(initial_next_number(v, true, 0, 2), Some(2));
    let empty = rep("e", TrackKind::Video, "$Number$", &[]);
    assert_eq!(initial_next_number(&empty, true, 0, 2), None);
}

#[test]
fn only_whole_groups_are_taken() {
    let v = rep("v", TrackKind::Video, "$Number$", &[(1, 20), (2, 20), (3, 20), (4, 20), (5, 20)]);
    let plan = build_short_source_live_jobs(&v, None, None, false, 0, 4);
    assert_eq!(plan.jobs.iter().map(|j| j.num).collect::<Vec<_>>(), [1, 2, 3, 4]);
    let a = rep("a", TrackKind::Audio, "$Number$", &[(1, 200), (2, 200), (3, 200), (4, 200)]);
    let plan = build_short_source_live_jobs(&v, Some(&a), None, true, 0, 4);
    assert!(plan.jobs.iter().all(|j| j.aurl.is_some() && j.audio_dur_ts == Some(200)));
}

#[test]
fn a_covering_segment_is_matched() {
    let v = SegmentRef { number: 100, url: "".into(), duration_ts: 20 };
    let a = rep("a", TrackKind::Audio, "$Time$", &[(0, 900), (900, 400), (1_300, 100)]);
    assert_eq!(match_audio_segment_by_time(&v, 10, &a).unwrap().number, 900);
    let far = SegmentRef { number: 9_000, url: "".into(), duration_ts: 20 };
    assert!(match_audio_segment_by_time(&far, 10, &a).is_none());
}

fn tenc(kid: &str) -> TrackEncryption {
    TrackEncryption {
        is_protected: true,
        iv_size: 8,
        scheme: None,
        crypt_byte_block: 0,
        skip_byte_block: 0,
        kid: kid.into(),
        constant_iv: None,
    }
}

#[test]
fn identifiers_come_from_manifest_or_init() {
    let mut v = rep("v", TrackKind::Video, "$Number$", &[]);
    v.manifest_kids = vec!["m1".into(), "m2".into()];
    let t = tenc("t");
    let of = |mode: KeyMode| effective_mpd_kid(mode, Some(&t), Some(&v));
    assert_eq!(of(KeyMode::Static).as_deref(), Some("t"));
    assert_eq!(of(KeyMode::Dynamic).as_deref(), Some("m1"));
    let a = rep("a", TrackKind::Audio, "$Number$", &[]);
    let ta = tenc("m2");
    assert_eq!(
        required_mpd_kids(KeyMode::Dynamic, &v, Some(&t), Some(&a), Some(&ta), None, None),
        ["m1", "m2"]
    );
    assert_eq!(
        required_mpd_kids(KeyMode::Static, &v, None, Some(&a), Some(&ta), None, None),
        ["m1", "m2"]
    );
    let kid = "00112233445566778899aabbccddeeff";
    let store = KeyStore::parse(&format!("{kid}:{}", "22".repeat(16)));
    assert_eq!(pick_key(&store, Some(kid)), Some([0x22; 16]));
    assert!(build_mpd_video_decryptor(&store, Some(&t), Some(kid)).unwrap().is_some());
    assert!(build_mpd_video_decryptor(&store, None, None).unwrap().is_none());
    match build_mpd_video_decryptor(&store, Some(&t), Some("q")) {
        Err(e) => assert_eq!(e.kid.as_deref(), Some("q")),
        Ok(_) => panic!("no key was given"),
    }
    assert!(build_mpd_audio_decryptor(&store, Some(&t), Some("q")).is_none());
}

#[test]
fn init_segments_are_read() {
    let mut p = vec![0u8; 24];
    p[6] = 1;
    p[7] = 8;
    p[23] = 0xee;
    let init = boxed(b"moov", &boxed(b"tenc", &p));
    let v = read_video_init(&init, "avc1.64001f");
    assert_eq!((v.codec, v.range), (VideoCodec::H264, VideoRange::Sdr));
    assert!(v.tenc.unwrap().kid.ends_with("ee"));
    assert!(v.dovi.is_none());
    let esds = boxed(b"esds", &[0, 0, 0, 0, 0x05, 0x02, 0x11, 0x90]);
    assert_eq!(read_audio_init(&esds, AudioCodec::AacAdts).aac.unwrap().sample_rate(), 48_000);
    assert!(read_audio_init(&esds, AudioCodec::Ec3).aac.is_none());
    assert_eq!(
        detect_video_range(VideoCodec::Hevc, true, &ParamSets::default()),
        VideoRange::Pq
    );
    let mut trun = vec![0u8, 0, 0x0b, 0x01];
    for n in [2u32, 0, 5, 1, 7, 5, 1, (-3i32) as u32] {
        trun.extend_from_slice(&n.to_be_bytes());
    }
    let mut data = boxed(b"moof", &boxed(b"traf", &boxed(b"trun", &trun)));
    data.extend_from_slice(&boxed(b"mdat", &[1, 2]));
    assert_eq!(min_cts(&data), Some(-3));
    assert_eq!(min_cts(&[0]), None);
}
