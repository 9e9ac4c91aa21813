//! What the control interface answers.

use dv_hls_gateway::config::AuthConfig;
use dv_hls_gateway::hls::{
    parse_playlist, HlsMaster, HlsMediaPlaylist, HlsPlaylist, HlsRendition, HlsSegment,
    HlsSegmentKey, HlsVariant,
};
use dv_hls_gateway::mpd::{MpdInfo, Representation, SegmentRef, TrackKind};
use dv_hls_gateway::server::api::{
    audio_codec_from_codecs, bitrate, master_response, media_response, normalize_task_name,
    parse_response, probe_media, probe_segment, subtitle_label, track_from_hls_rendition,
    track_from_hls_subtitle_rendition, CreateReq, CreateResp, DEFAULT_TARGET_DURATION,
    DEFAULT_WINDOW,
};
use dv_hls_gateway::server::auth::{admits_pairs, admits_request};
use dv_hls_gateway::server::create::{
    guess_range, plan_hls_task, plan_mpd_task, select_hls_subtitle_rendition,
    select_master_subtitles, select_media_variant, select_mpd_subtitle_rep, CreateError,
};
use dv_hls_gateway::task::manager::{KeyMode, RunMode, SourceKind};
use dv_hls_gateway::web::QueryPair;

fn rep(id: &str, kind: TrackKind, bandwidth: u64) -> Representation {
    Representation {
        id: id.into(),
        kind,
        codecs: format!("c-{id}"),
        bandwidth,
        width: if kind == TrackKind::Video { 1920 } else { 0 },
        height: 1080,
        lang: "".into(),
        timescale: 10,
        init_url: "".into(),
        manifest_kids: vec![],
        media_template: "$Number$".into(),
        start_number: 1,
        segments: vec![SegmentRef { number: 1, url: "u".into(), duration_ts: 20 }],
        total_duration_ts: 20,
    }
}

fn info(dynamic: bool) -> MpdInfo {
    MpdInfo {
        base_url: "".into(),
        representations: vec![
            rep("v1", TrackKind::Video, 5),
            rep("a1", TrackKind::Audio, 1),
            rep("v2", TrackKind::Video, 9),
            rep("s1", TrackKind::Subtitle, 0),
            rep("o1", TrackKind::Other, 0),
        ],
        is_dynamic: dynamic,
    }
}

fn request() -> CreateReq {
    CreateReq {
        name: "  my task ".into(),
        mpd: "http://h/m".into(),
        keys: "k".into(),
        key_mode: KeyMode::Dynamic,
        run_mode: RunMode::OnDemand,
        video_rep_id: "v1".into(),
        audio_rep_id: Some("a1".into()),
        enable_subtitles: false,
        subtitle_rep_id: None,
        window: DEFAULT_WINDOW,
        target_duration: DEFAULT_TARGET_DURATION,
    }
}

fn media(durations: &[i64], end_list: bool, has_map: bool) -> HlsMediaPlaylist {
    HlsMediaPlaylist {
        uri: "http://h/p".into(),
        target_duration: 9,
        media_sequence: 0,
        end_list,
        has_map,
        map_uri: None,
        segments: durations
            .iter()
            .enumerate()
            .map(|(i, d)| HlsSegment {
                sequence: i as u64,
                uri: format!("s{i}"),
                duration_ns: *d,
                key: HlsSegmentKey::Clear,
                discontinuity: false,
            })
            .collect(),
    }
}

fn variant(id: &str, bandwidth: u64, codecs: &str) -> HlsVariant {
    HlsVariant {
        id: id.into(),
        uri: "u".into(),
        audio_group: Some("g".into()),
        subtitles_group: Some("s".into()),
        bandwidth,
        codecs: codecs.into(),
        width: 0,
        height: 0,
        video_range: "PQ".into(),
    }
}

fn rendition(id: &str, group: &str, is_default: bool) -> HlsRendition {
    HlsRendition {
        id: id.into(),
        group_id: group.into(),
        name: "Name".into(),
        uri: "u".into(),
        language: " ".into(),
        channels: " 6 ".into(),
        is_default,
    }
}

fn master() -> HlsMaster {
    HlsMaster {
        variants: vec![variant("hls-0", 5, "hvc1, ec-3"), variant("hls-1", 7, "")],
        audio: vec![rendition("hls-a-0", "g", false)],
        subtitles: vec![
            rendition("hls-s-0", "t", true),
            rendition("hls-s-1", "s", false),
            rendition("hls-s-2", "s", true),
        ],
    }
}

#[test]
fn tracks_are_ranked_by_rate() {
    let r = parse_response(&info(true));
    assert!(r.is_dynamic);
    assert_eq!(r.video.iter().map(|t| t.id.as_str()).collect::<Vec<_>>(), ["v2", "v1"]);
    assert_eq!((r.video[0].resolution.as_str(), r.video[0].kind.as_str()), ("1920x1080", "Video"));
    assert_eq!((r.audio.len(), r.subtitles.len()), (1, 1));
    assert_eq!(r.audio[0].resolution, "");
    assert_eq!(r.video[0].segments, 1);
}

#[test]
fn playlists_answer_their_tracks() {
    let one = media_response(&media(&[1, 2], false, false));
    assert_eq!((one.video[0].id.as_str(), one.video[0].codecs.as_str()), ("hls-0", "mpegts"));
    assert_eq!((one.video[0].segments, one.is_dynamic), (2, true));
    let m = master();
    let probe = Some(probe_media(&media(&[1], true, false)));
    let all = master_response(&m, &[probe, None], vec![], vec![]);
    assert!(!all.is_dynamic);
    assert_eq!(all.video[0].id, "hls-1");
    assert_eq!((all.video[0].codecs.as_str(), all.video[0].segments), ("mpegts", 0));
    assert_eq!(all.video[1].segments, 1);
    assert!(master_response(&m, &[None, None], vec![], vec![]).is_dynamic);
}

#[test]
fn renditions_show_codec_channels_and_language() {
    let m = master();
    let a = track_from_hls_rendition(&m, &m.audio[0], 640);
    assert_eq!((a.codecs.as_str(), a.lang.as_str(), a.bandwidth), ("ec-3 6ch", "Name", 640));
    let s = track_from_hls_subtitle_rendition(&m.subtitles[0], None);
    assert_eq!((s.codecs.as_str(), s.lang.as_str(), s.segments), ("webvtt", "Name", 0));
    let s = track_from_hls_subtitle_rendition(&m.subtitles[0], Some(&media(&[1], true, true)));
    assert_eq!((s.codecs.as_str(), s.segments), ("fmp4-subtitle", 1));
    assert_eq!(audio_codec_from_codecs("hvc1, MP4A.40.2"), Some("MP4A.40.2".to_string()));
    assert_eq!(audio_codec_from_codecs("hvc1"), None);
    assert_eq!(subtitle_label(" en ", "x"), "en");
    assert_eq!(subtitle_label(" ", ""), "subtitles");
}

#[test]
fn rates_are_rounded_bits_per_second() {
    assert_eq!(bitrate(1_000, 2_000_000_000), 4_000);
    assert_eq!(bitrate(1, 3_000_000_000), 3);
    assert_eq!(bitrate(1, 16_000_000_000), 1);
    let m = media(&[5, 6, 0], false, false);
    assert_eq!(probe_segment(&m).unwrap().uri, "s1");
    assert!(probe_segment(&media(&[0], false, false)).is_none());
}

#[test]
fn names_are_trimmed_and_cut() {
    assert_eq!(normalize_task_name("  "), "未命名任务");
    assert_eq!(normalize_task_name(&"é".repeat(99)), "é".repeat(80));
    let r = CreateResp::new("abc");
    assert_eq!((r.id.as_str(), r.playlist_url.as_str()), ("abc", "/p/abc"));
}

#[test]
fn requests_are_let_in_by_header_or_query() {
    let auth = AuthConfig { key: " s+1 ".into() };
    assert!(admits_request(&auth, Some("s+1"), None));
    assert!(admits_request(&auth, Some("no"), Some("a=b&key=s%2B1")));
    assert!(!admits_request(&auth, None, Some("key=s+1")));
    assert!(!admits_request(&auth, None, None));
    let pairs = [QueryPair { name: "key".into(), value: "s+1".into() }];
    assert!(admits_pairs(&auth, None, &pairs));
    let none = AuthConfig { key: " ".into() };
    assert!(!admits_request(&none, Some(""), Some("key=")));
}

#[test]
fn a_manifest_task_is_planned() {
    let p = plan_mpd_task(&info(false), &request()).unwrap();
    assert_eq!((p.name.as_str(), p.codecs.as_str()), ("my task", "c-v1,c-a1"));
    assert_eq!((p.window, p.target_duration, p.is_dynamic), (0, 7, false));
    assert_eq!((p.width, p.height, p.bandwidth, p.total_segments), (1920, 1080, 5, 1));
    assert!(p.short_source);
    assert_eq!(p.selection.source_kind, SourceKind::Mpd);
    assert!(!p.selection.enable_subtitles);
    assert_eq!(plan_mpd_task(&info(true), &request()).unwrap().window, 6);
    let mut req = request();
    req.video_rep_id = "a1".into();
    assert!(matches!(plan_mpd_task(&info(false), &req), Err(CreateError::VideoNotFound)));
    req = request();
    req.enable_subtitles = true;
    let p = plan_mpd_task(&info(false), &req).unwrap();
    assert_eq!(p.selection.subtitle_rep_id.as_deref(), Some("s1"));
    assert_eq!(p.subtitle_lang, "s1");
    let (hls, _) = p.make_outputs("id", 2);
    assert!(hls.media_playlist().starts_with("#EXTM3U"));
    let c = |s: &str| s.chars().collect::<Vec<char>>();
    assert_eq!(guess_range(&c("dvh1.05")), "PQ");
    assert_eq!(guess_range(&c("hvc1")), "SDR");
}

#[test]
fn a_playlist_task_is_planned() {
    let v = select_media_variant("http://h/m", "").unwrap();
    assert_eq!(v.codecs, "mpegts");
    assert!(matches!(select_media_variant("u", "x"), Err(CreateError::MediaTrackName)));
    let m = master();
    let p = plan_hls_task(&v, &media(&[1], false, false), Some(&m.subtitles[0]), &request());
    assert_eq!((p.target_duration, p.window, p.is_dynamic), (9, 6, true));
    assert_eq!(p.selection.video_rep_id, "hls-0");
    assert_eq!(p.selection.subtitle_rep_id.as_deref(), Some("hls-s-0"));
    assert_eq!(p.subtitle_lang, "Name");
    assert_eq!(p.video_range, "SDR");
}

#[test]
fn subtitles_are_chosen_or_refused() {
    let reps = info(false).representations;
    assert!(select_mpd_subtitle_rep(&reps, false, Some("s1")).unwrap().is_none());
    assert_eq!(select_mpd_subtitle_rep(&reps, true, Some(" ")).unwrap().unwrap().id, "s1");
    let e = select_mpd_subtitle_rep(&reps, true, Some("v1")).unwrap_err();
    assert_eq!(e.message(), "subtitle rep v1 not found");
    let e = select_mpd_subtitle_rep(&reps[..1], true, None).unwrap_err();
    assert_eq!(e.message(), "no subtitle track found");

    let m = master();
    assert_eq!(select_master_subtitles(&m, Some("s"), None).unwrap().id, "hls-s-2");
    assert_eq!(select_master_subtitles(&m, Some("s"), Some("hls-s-1")).unwrap().id, "hls-s-1");
    let refused = |group: Option<&str>, id: Option<&str>| {
        select_master_subtitles(&m, group, id).unwrap_err().message()
    };
    assert_eq!(refused(None, None), "selected HLS variant has no SUBTITLES group");
    assert_eq!(refused(Some("s"), Some("x")), "HLS subtitle rendition x not found");
    assert_eq!(
        refused(Some("s"), Some("hls-s-0")),
        "HLS subtitle rendition hls-s-0 belongs to group t, but selected video requires group s"
    );
    assert_eq!(refused(Some("q"), None), "no subtitle rendition found for group q");
    let source = parse_playlist("#EXTM3U\n", "http://h/m").unwrap();
    assert!(select_hls_subtitle_rendition(&source, None, false, None).unwrap().is_none());
    assert!(matches!(
        select_hls_subtitle_rendition(&source, None, true, None),
        Err(CreateError::MediaWithoutSubtitles)
    ));
    let source = HlsPlaylist::Master(master());
    assert!(select_hls_subtitle_rendition(&source, Some("s"), true, None).unwrap().is_some());
    assert_eq!(
        CreateError::NestedMaster.message(),
        "nested HLS master playlists are not supported"
    );
    assert_eq!(
        (CreateError::VariantNotFound { id: "x".into() }).message(),
        "HLS variant x not found"
    );
    assert_eq!(CreateError::VideoNotFound.message(), "video rep not found");
    assert_eq!(CreateError::MediaTrackName.message(), "HLS media playlist track id must be hls-0");
    assert_eq!(
        CreateError::MediaWithoutSubtitles.message(),
        "HLS media playlist has no subtitle renditions"
    );
}
