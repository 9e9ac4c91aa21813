//! Playlists and manifests with odd or missing parts.

use dv_hls_gateway::hls::parser::{looks_like_hls, numbered, HlsError};
use dv_hls_gateway::hls::{parse_playlist, HlsMediaPlaylist, HlsPlaylist, HlsSegmentKey};
use dv_hls_gateway::mpd::parser::{
    derive_base, derive_origin, detect_track_kind, merge_by_id, parse_default_kid_list,
    parse_events, resolve_base, resolve_url, MpdError,
};
use dv_hls_gateway::mpd::{parse_mpd, SegmentRef, TrackKind};
use dv_hls_gateway::web::{resolve, UrlError};
use dv_hls_gateway::xml::read_document;

fn media(text: &str) -> HlsMediaPlaylist {
    match parse_playlist(text, "https://cdn/a/b.m3u8").unwrap() {
        HlsPlaylist::Media(m) => m,
        HlsPlaylist::Master(_) => panic!("media expected"),
    }
}

fn refused(text: &str, url: &str) -> HlsError {
    parse_playlist(text, url).unwrap_err()
}

#[test]
fn playlists_are_refused_by_reason() {
    let url = "https://cdn/a/b.m3u8";
    assert_eq!(refused("<MPD/>", url), HlsError::NotPlaylist);
    assert_eq!(
        refused("#EXTM3U\n#EXTINF:1,\ns.ts", "not a url").message(),
        "invalid HLS URL not a url: relative URL without a base"
    );
    assert_eq!(
        refused("#EXTM3U\n#EXTINF:1,\n//[", url).message(),
        "invalid HLS relative URL //[: invalid IPv6 address"
    );
    assert_eq!(refused("#EXTM3U\n#EXT-X-KEY:METHOD=AES-128", url), HlsError::MissingKeyUri);
    assert_eq!(
        refused("#EXTM3U\n#EXT-X-KEY:METHOD=AES-128,URI=\"k\",IV=0x123", url),
        HlsError::IvLength
    );
    assert_eq!(
        refused("#EXTM3U\n#EXT-X-KEY:METHOD=SAMPLE-AES,IV=0xzz", url).message(),
        "invalid HLS IV: Invalid character 'z' at position 0"
    );
    let long = format!("#EXTM3U\n#EXT-X-KEY:METHOD=SAMPLE-AES,IV=0x{}", "00".repeat(17));
    assert_eq!(refused(&long, url), HlsError::IvTooLong);
    assert_eq!(HlsError::NotPlaylist.message(), "not an HLS playlist");
    assert!(looks_like_hls("\u{feff}\n #EXTM3U"));
    assert!(!looks_like_hls("EXTM3U"));
}

#[test]
fn segments_are_numbered_from_the_stated_sequence() {
    let m = media("#EXTM3U\n#EXT-X-MEDIA-SEQUENCE:7\n#EXTINF:1.5,\na\nb\n#EXTINF:x,\nc\n#EXTINF:2\nd\n#EXTINF:-0.5,\ne\n#EXTINF:-Inf\nf\n");
    let got: Vec<(u64, &str, i64)> =
        m.segments.iter().map(|s| (s.sequence, s.uri.as_str(), s.duration_ns)).collect();
    assert_eq!(
        got,
        [
            (7, "https://cdn/a/a", 1_500_000_000),
            (8, "https://cdn/a/c", 0),
            (9, "https://cdn/a/d", 2_000_000_000),
            (10, "https://cdn/a/e", -500_000_000),
            (11, "https://cdn/a/f", i64::MIN)
        ]
    );
    assert!(m.is_live());
    assert_eq!(m.target_duration, 6);
    assert_eq!(numbered("hls-", 12), "hls-12");
}

#[test]
fn keys_keep_their_parts() {
    let m = media(
        "#EXTM3U\n#EXT-X-KEY:METHOD=sample-aes,URI=\"k.bin\",IV=0xab\n#EXTINF:1,\na\n\
         #EXT-X-KEY:METHOD=AES-128,URI=\"k\",KEYFORMAT=\"x\"\n#EXTINF:1,\nb\n",
    );
    match &m.segments[0].key {
        HlsSegmentKey::SampleAes { key_format, uri, iv } => {
            assert_eq!(key_format, "identity");
            assert_eq!(uri.as_deref(), Some("https://cdn/a/k.bin"));
            assert_eq!(iv.unwrap()[15], 0xab);
            assert_eq!(iv.unwrap()[..15], [0; 15]);
        }
        _ => panic!("sample encryption expected"),
    }
    match &m.segments[1].key {
        HlsSegmentKey::Unsupported { method, key_format } => {
            assert_eq!((method.as_str(), key_format.as_str()), ("AES-128", "x"));
        }
        _ => panic!("unsupported expected"),
    }
}

#[test]
fn quoted_commas_do_not_split_attributes() {
    let text = "#EXTM3U\n#EXT-X-MEDIA:TYPE=SUBTITLES,GROUP-ID=\"s\",NAME=\"a,b\",URI=\"s.m3u8\"\n\
                #EXT-X-STREAM-INF:AVERAGE-BANDWIDTH=9,RESOLUTION=1xq,SUBTITLES=\"s\"\n#x\nv.m3u8\n";
    match parse_playlist(text, "https://cdn/m.m3u8").unwrap() {
        HlsPlaylist::Master(m) => {
            assert_eq!(m.subtitles[0].name, "a,b");
            assert_eq!(m.subtitles[0].id, "hls-s-0");
            assert_eq!(m.variants[0].bandwidth, 9);
            assert_eq!((m.variants[0].width, m.variants[0].height), (0, 0));
            assert_eq!(m.variants[0].video_range, "SDR");
        }
        HlsPlaylist::Media(_) => panic!("master expected"),
    }
}

#[test]
fn paths_are_resolved_on_their_base() {
    let c = |s: &str| s.chars().collect::<Vec<char>>();
    assert_eq!(resolve("https://h/a/b", &c("../c")).unwrap(), "https://h/c");
    assert_eq!(resolve("nonsense", &c("https://x/y")).unwrap(), "https://x/y");
    assert_eq!(
        resolve("nonsense", &c("y")).unwrap_err(),
        UrlError::Base("relative URL without a base".into())
    );
    assert!(matches!(resolve("https://h/a", &c("//[")), Err(UrlError::Path(_))));
    assert_eq!(derive_base("https://h/a/b.mpd?x=1"), "https://h/a/");
    assert_eq!(derive_origin("https://h/a/b.mpd"), "https://h");
    assert_eq!(resolve_url("https://h/a/", "https://h", "c.m4s"), "https://h/a/c.m4s");
    assert_eq!(resolve_url("https://h/a/", "https://h", "/c.m4s"), "https://h/c.m4s");
    assert_eq!(resolve_url("https://h/a/", "https://h", "http://x/c"), "http://x/c");
    assert_eq!(resolve_base("https://h/a/", "https://h", "d/"), "https://h/a/d/");
}

#[test]
fn kinds_follow_type_and_codec() {
    assert_eq!(detect_track_kind(Some("video"), None, None), TrackKind::Video);
    assert_eq!(detect_track_kind(None, Some("audio/mp4"), None), TrackKind::Audio);
    assert_eq!(detect_track_kind(Some("text"), None, None), TrackKind::Subtitle);
    assert_eq!(detect_track_kind(None, Some("application/mp4"), Some("wvtt")), TrackKind::Subtitle);
    assert_eq!(detect_track_kind(None, None, None), TrackKind::Other);
    assert_eq!(
        parse_default_kid_list("00112233-4455-6677-8899-AABBCCDDEEFF bad"),
        ["00112233445566778899aabbccddeeff"]
    );
}

const TWO_PERIODS: &str = r#"<MPD type="dynamic"><BaseURL>https://h/a&amp;b/</BaseURL>
<Period><AdaptationSet contentType="video">
<SegmentTemplate timescale="10" media="$RepresentationID$-$Time$.m4s" initialization="$RepresentationID$.mp4">
<SegmentTimeline><S t="0" d="40" r="1"/><S d="20"/></SegmentTimeline></SegmentTemplate>
<Representation id="v1" bandwidth="5" codecs="hvc1" width="3" height="2"/></AdaptationSet></Period>
<Period><AdaptationSet contentType="video">
<SegmentTemplate timescale="10" media="$RepresentationID$-$Time$.m4s" initialization="$RepresentationID$.mp4">
<SegmentTimeline><S t="100" d="20" r="1"/></SegmentTimeline></SegmentTemplate>
<Representation id="v1" bandwidth="6" codecs="hvc1"/></AdaptationSet></Period></MPD>"#;

#[test]
fn entries_repeat_and_inserted_periods_are_left_out() {
    let info = parse_mpd(TWO_PERIODS, "https://x/m.mpd").unwrap();
    assert!(info.is_dynamic);
    assert_eq!(info.base_url, "https://h/a&b/");
    assert_eq!(info.representations.len(), 1);
    let rep = &info.representations[0];
    let got: Vec<(u64, u64)> = rep.segments.iter().map(|s| (s.number, s.duration_ts)).collect();
    assert_eq!(got, [(0, 40), (40, 40), (80, 20)]);
    assert_eq!((rep.width, rep.height, rep.bandwidth, rep.timescale), (3, 2, 5, 10));
    assert_eq!(rep.segments[1].url, "https://h/a&b/v1-40.m4s");
    assert_eq!(rep.init_url, "https://h/a&b/v1.mp4");
    assert_eq!(rep.total_duration_ts, 100);
}

#[test]
fn tracks_of_one_name_are_joined_in_order() {
    let info = parse_mpd(TWO_PERIODS, "https://x/m.mpd").unwrap();
    let mut later = info.representations[0].clone();
    later.segments = vec![
        SegmentRef { number: 60, url: "x".into(), duration_ts: 1 },
        SegmentRef { number: 0, url: "y".into(), duration_ts: 2 },
    ];
    let mut other = later.clone();
    other.id = "v2".into();
    let joined = merge_by_id(vec![info.representations[0].clone(), other, later]);
    assert_eq!(joined.len(), 2);
    let numbers: Vec<u64> = joined[0].segments.iter().map(|s| s.number).collect();
    assert_eq!(numbers, [0, 40, 60, 80]);
    assert_eq!(joined[0].segments[0].url, "https://h/a&b/v1-0.m4s");
    assert_eq!(joined[0].total_duration_ts, 200);
    assert_eq!(joined[1].id, "v2");
}

#[test]
fn broken_documents_are_refused() {
    let MpdError::Xml(reason) = parse_mpd("<MPD><Period></MPD>", "https://h/m").unwrap_err();
    assert!(reason.contains("Period"));
    assert_eq!(MpdError::Xml("x".into()).message(), "MPD parse error: x");
    assert!(parse_mpd("", "https://h/m").unwrap().representations.is_empty());
    let events = read_document("<MPD type='static'></MPD>", true);
    assert!(!parse_events(&events, "https://h/m").unwrap().is_dynamic);
}
