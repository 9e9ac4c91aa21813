//! DASH manifests.

use dv_hls_gateway::mpd::parser::{derive_base, derive_origin, resolve_url};
use dv_hls_gateway::mpd::{parse_mpd, TrackKind};

#[test]
fn base_derivation() {
    assert_eq!(
        derive_base("https://cdn/x/y/master.mpd?a=b"),
        "https://cdn/x/y/"
    );
}

#[test]
fn parse_minimal_mpd() {
    let mpd = r#"<?xml version="1.0"?>
<MPD type="static">
  <Period>
<AdaptationSet contentType="video" mimeType="video/mp4">
  <SegmentTemplate timescale="24000" initialization="$RepresentationID$/seg.mp4" media="$RepresentationID$/seg_$Number$.mp4" startNumber="0">
    <SegmentTimeline>
      <S t="0" d="144144" r="2"/>
    </SegmentTimeline>
  </SegmentTemplate>
  <Representation id="vid/dv5" codecs="dvh1.05.06" bandwidth="15000000" width="3840" height="2160"/>
</AdaptationSet>
  </Period>
</MPD>"#;
    let info = parse_mpd(mpd, "https://cdn/p/master.mpd").unwrap();
    assert!(!info.is_dynamic);
    assert_eq!(info.representations.len(), 1);
    let r = &info.representations[0];
    assert_eq!(r.kind, TrackKind::Video);
    assert_eq!(r.codecs, "dvh1.05.06");
    assert_eq!(r.segments.len(), 3);
    assert_eq!(r.segments[0].url, "https://cdn/p/vid/dv5/seg_0.mp4");
    assert_eq!(r.init_url, "https://cdn/p/vid/dv5/seg.mp4");
    assert_eq!(r.segments[1].number, 1);
}

#[test]
fn content_protection_default_kid_is_inherited_from_adaptation_set() {
    let mpd = r#"<?xml version="1.0"?>
<MPD type="dynamic" xmlns:cenc="urn:mpeg:cenc:2013">
  <Period>
<AdaptationSet contentType="video" mimeType="video/mp4">
  <ContentProtection schemeIdUri="urn:mpeg:dash:mp4protection:2011" cenc:default_KID="11111111-1111-1111-8111-000000000000"/>
  <SegmentTemplate timescale="24000" initialization="$RepresentationID$/i.mp4" media="$RepresentationID$/$Number$.mp4" startNumber="1">
    <SegmentTimeline><S t="0" d="24000" r="0"/></SegmentTimeline>
  </SegmentTemplate>
  <Representation id="v" codecs="avc1" bandwidth="1" width="1" height="1"/>
</AdaptationSet>
  </Period>
</MPD>"#;
    let info = parse_mpd(mpd, "https://cdn/p/master.mpd").unwrap();
    assert_eq!(
        info.representations[0].manifest_kids,
        vec!["11111111111111118111000000000000"]
    );
}

#[test]
fn representation_content_protection_overrides_adaptation_set_kid() {
    let mpd = r#"<?xml version="1.0"?>
<MPD type="dynamic" xmlns:cenc="urn:mpeg:cenc:2013">
  <Period>
<AdaptationSet contentType="audio" mimeType="audio/mp4">
  <ContentProtection cenc:default_KID="aaaaaaaa-aaaa-aaaa-aaaa-aaaaaaaaaaaa"/>
  <SegmentTemplate timescale="48000" initialization="$RepresentationID$/i.mp4" media="$RepresentationID$/$Number$.mp4" startNumber="1">
    <SegmentTimeline><S t="0" d="96000" r="0"/></SegmentTimeline>
  </SegmentTemplate>
  <Representation id="a" codecs="ec-3" bandwidth="666000">
    <ContentProtection cenc:default_KID="bbbbbbbb-bbbb-bbbb-bbbb-bbbbbbbbbbbb cccccccc-cccc-cccc-cccc-cccccccccccc"/>
  </Representation>
</AdaptationSet>
  </Period>
</MPD>"#;
    let info = parse_mpd(mpd, "https://cdn/p/master.mpd").unwrap();
    assert_eq!(
        info.representations[0].manifest_kids,
        vec![
            "bbbbbbbbbbbbbbbbbbbbbbbbbbbbbbbb",
            "cccccccccccccccccccccccccccccccc"
        ]
    );
}

#[test]
fn dynamic_type_parsed_precisely() {
    let mpd = r#"<?xml version="1.0"?>
<MPD type="dynamic" minimumUpdatePeriod="PT4S">
  <Period>
<EventStream><Event type="encoder"/></EventStream>
<AdaptationSet contentType="video" mimeType="video/mp4">
  <SegmentTemplate timescale="24000" initialization="$RepresentationID$/i.mp4" media="$RepresentationID$/$Number$.mp4" startNumber="100">
    <SegmentTimeline><S t="0" d="96096" r="9"/></SegmentTimeline>
  </SegmentTemplate>
  <Representation id="v" codecs="avc1.64001f" bandwidth="3000000" width="1280" height="720"/>
</AdaptationSet>
  </Period>
</MPD>"#;
    let info = parse_mpd(mpd, "https://cdn/m.mpd").unwrap();
    assert!(info.is_dynamic, "type=dynamic 应识别为 live");
    let r = &info.representations[0];
    assert_eq!(r.segments.len(), 10);
    assert_eq!(r.segments.first().unwrap().number, 100);
    assert_eq!(r.segments.last().unwrap().number, 109);
}

#[test]
fn static_type_is_vod() {
    let mpd = r#"<MPD type="static"><Period><AdaptationSet contentType="video" mimeType="video/mp4"><SegmentTemplate timescale="24000" initialization="$RepresentationID$/i.mp4" media="$RepresentationID$/$Number$.mp4" startNumber="0"><SegmentTimeline><S t="0" d="96096" r="0"/></SegmentTimeline></SegmentTemplate><Representation id="v" codecs="hvc1" bandwidth="1" width="1" height="1"/></AdaptationSet></Period></MPD>"#;
    let info = parse_mpd(mpd, "https://cdn/m.mpd").unwrap();
    assert!(!info.is_dynamic);
}

#[test]
fn origin_extraction() {
    assert_eq!(
        derive_origin("https://cdn.example.com/a/b.mpd"),
        "https://cdn.example.com"
    );
    assert_eq!(derive_origin("https://h:8080/x"), "https://h:8080");
    assert_eq!(derive_origin("https://h"), "https://h");
}

#[test]
fn resolve_url_three_forms() {
    let base = "https://cdn/dir/";
    let origin = "https://cdn";
    assert_eq!(
        resolve_url(base, origin, "https://x/y.mp4"),
        "https://x/y.mp4"
    );
    assert_eq!(
        resolve_url(base, origin, "/atp/z/seg.mp4"),
        "https://cdn/atp/z/seg.mp4"
    );
    assert_eq!(
        resolve_url(base, origin, "v/seg.mp4"),
        "https://cdn/dir/v/seg.mp4"
    );
}
#[test]
fn mpd_level_baseurl_rewrites_segments() {
    let mpd = r#"<?xml version="1.0"?>
<MPD type="dynamic">
  <BaseURL>/v~sig_e~123_u~abc/co01/channel(5021104)/</BaseURL>
  <Period>
<AdaptationSet contentType="video" mimeType="video/mp4">
  <SegmentTemplate timescale="240000" initialization="$RepresentationID$_init.m4i" media="$RepresentationID$_Segment-$Number$.mp4" startNumber="4818">
    <SegmentTimeline><S t="0" d="936936" r="1"/></SegmentTimeline>
  </SegmentTemplate>
  <Representation id="item-07" codecs="avc1.64002a" bandwidth="10000000" width="1920" height="1080"/>
</AdaptationSet>
  </Period>
</MPD>"#;
    let info = parse_mpd(
        mpd,
        "https://g003-cdn.example.com/pck-sle/v1/dash/abc/foo/master_2hr.mpd?x=1",
    )
    .unwrap();
    let r = &info.representations[0];
    assert_eq!(
        r.init_url,
        "https://g003-cdn.example.com/v~sig_e~123_u~abc/co01/channel(5021104)/item-07_init.m4i"
    );
    assert_eq!(r.segments[0].url, "https://g003-cdn.example.com/v~sig_e~123_u~abc/co01/channel(5021104)/item-07_Segment-4818.mp4");
    assert_eq!(r.segments[0].number, 4818);
    assert_eq!(r.segments.len(), 2);
}
#[test]
fn ssai_ad_periods_are_skipped() {
    let mpd = r#"<?xml version="1.0"?>
<MPD type="dynamic">
  <BaseURL>/main/content/</BaseURL>
  <Period id="content">
<AdaptationSet contentType="video" mimeType="video/mp4">
  <SegmentTemplate timescale="240000" initialization="$RepresentationID$_i.m4i" media="$RepresentationID$_$Number$.mp4" startNumber="0">
    <SegmentTimeline><S t="0" d="100" r="0"/></SegmentTimeline>
  </SegmentTemplate>
  <Representation id="v" codecs="avc1" bandwidth="1" width="1" height="1"/>
</AdaptationSet>
  </Period>
  <Period id="ad">
<BaseURL>/atp/uuid/cmaf_v3/</BaseURL>
<AdaptationSet contentType="video" mimeType="video/mp4">
  <SegmentTemplate timescale="240000" initialization="master_init.cmfv" media="master_$Time$.cmfv" startNumber="0">
    <SegmentTimeline><S t="0" d="100" r="0"/></SegmentTimeline>
  </SegmentTemplate>
  <Representation id="v" codecs="avc1" bandwidth="1" width="1" height="1"/>
</AdaptationSet>
  </Period>
</MPD>"#;
    let info = parse_mpd(mpd, "https://cdn.example.com/p/master.mpd").unwrap();
    let v = info.representations.iter().find(|r| r.id == "v").unwrap();
    assert_eq!(v.init_url, "https://cdn.example.com/main/content/v_i.m4i");
    assert_eq!(v.segments.len(), 1);
    assert_eq!(
        v.segments[0].url,
        "https://cdn.example.com/main/content/v_0.mp4"
    );
    assert!(
        !v.init_url.contains("/atp/"),
        "广告 Period 不应污染主内容 init"
    );
}
#[test]
fn no_baseurl_falls_back_to_manifest_dir() {
    let mpd = r#"<MPD type="static"><Period><AdaptationSet contentType="video" mimeType="video/mp4"><SegmentTemplate timescale="24000" initialization="$RepresentationID$/i.mp4" media="$RepresentationID$/$Number$.mp4" startNumber="0"><SegmentTimeline><S t="0" d="96096" r="0"/></SegmentTimeline></SegmentTemplate><Representation id="v" codecs="hvc1" bandwidth="1" width="1" height="1"/></AdaptationSet></Period></MPD>"#;
    let info = parse_mpd(mpd, "https://cdn/p/master.mpd").unwrap();
    assert_eq!(
        info.representations[0].segments[0].url,
        "https://cdn/p/v/0.mp4"
    );
}
#[test]
fn time_template_expands_with_timeline_t() {
    let mpd = r#"<?xml version="1.0"?>
<MPD type="dynamic">
  <Period>
<AdaptationSet contentType="video" mimeType="video/mp4">
  <SegmentTemplate timescale="240000" initialization="v_init.m4i" media="v_$Time$.cmfv" startNumber="0">
    <SegmentTimeline><S t="1000" d="100" r="2"/></SegmentTimeline>
  </SegmentTemplate>
  <Representation id="v" codecs="avc1" bandwidth="1" width="1" height="1"/>
</AdaptationSet>
  </Period>
</MPD>"#;
    let info = parse_mpd(mpd, "https://cdn/p/m.mpd").unwrap();
    let r = &info.representations[0];
    assert_eq!(r.segments.len(), 3);
    assert_eq!(r.segments[0].url, "https://cdn/p/v_1000.cmfv");
    assert_eq!(r.segments[1].url, "https://cdn/p/v_1100.cmfv");
    assert_eq!(r.segments[2].url, "https://cdn/p/v_1200.cmfv");
}

#[test]
fn bandwidth_template_expands_in_init_and_media_urls() {
    let mpd = r#"<?xml version="1.0"?>
<MPD type="dynamic">
  <Period>
<AdaptationSet contentType="video" mimeType="video/mp4">
  <SegmentTemplate timescale="10000000" initialization="chunk_$RepresentationID$_$Bandwidth$_init.mp4" media="chunk_$RepresentationID$_$Bandwidth$_t$Time$.mp4">
    <SegmentTimeline><S t="17832777776145666" d="20020000" r="1"/></SegmentTimeline>
  </SegmentTemplate>
  <Representation id="video_3" codecs="hvc1.2.4.L153.90" bandwidth="20680000" width="3840" height="2160"/>
</AdaptationSet>
  </Period>
</MPD>"#;
    let info = parse_mpd(mpd, "https://cdn.example.com/live/manifest.mpd").unwrap();
    let r = &info.representations[0];
    assert_eq!(
        r.init_url,
        "https://cdn.example.com/live/chunk_video_3_20680000_init.mp4"
    );
    assert_eq!(
        r.segments[0].url,
        "https://cdn.example.com/live/chunk_video_3_20680000_t17832777776145666.mp4"
    );
    assert_eq!(
        r.segments[1].url,
        "https://cdn.example.com/live/chunk_video_3_20680000_t17832777796165666.mp4"
    );
}
#[test]
fn regression_number_template_no_baseurl() {
    let mpd = r#"<?xml version="1.0"?>
<MPD type="static">
  <Period>
<AdaptationSet contentType="video" mimeType="video/mp4">
  <SegmentTemplate timescale="240000" initialization="$RepresentationID$_init.m4i" media="$RepresentationID$_Segment-$Number$.mp4" startNumber="4818">
    <SegmentTimeline><S t="0" d="936936" r="2"/></SegmentTimeline>
  </SegmentTemplate>
  <Representation id="item-06" codecs="hvc1.2.4.L153.B0" bandwidth="13000000" width="3840" height="2160"/>
</AdaptationSet>
  </Period>
</MPD>"#;
    let info = parse_mpd(
        mpd,
        "https://g002-cdn.example.com/v~sig/co01/channel(5021147)/master_2min.mpd",
    )
    .unwrap();
    let r = &info.representations[0];
    assert_eq!(
        r.init_url,
        "https://g002-cdn.example.com/v~sig/co01/channel(5021147)/item-06_init.m4i"
    );
    assert_eq!(r.segments.len(), 3);
    assert_eq!(r.segments[0].number, 4818);
    assert_eq!(
        r.segments[0].url,
        "https://g002-cdn.example.com/v~sig/co01/channel(5021147)/item-06_Segment-4818.mp4"
    );
    assert_eq!(r.segments[2].number, 4820);
}
