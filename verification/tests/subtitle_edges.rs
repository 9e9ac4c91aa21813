//! Cues: how they are read, moved and written.

use dv_hls_gateway::segment::playlist::{format_webvtt_segment, hls_quote, push_seconds, seconds_up};
use dv_hls_gateway::subtitle::fragment::{
    append_body, extract_wvtt_payload, fragment_to_vtt_body, sample_payload_to_body,
};
use dv_hls_gateway::subtitle::time::{format_vtt_time, parse_time_expression, parse_vtt_time};
use dv_hls_gateway::subtitle::ttml::ttml_to_body;
use dv_hls_gateway::subtitle::webvtt::{parse_vtt_timing_line, split_blocks, webvtt_to_body};
use dv_hls_gateway::subtitle::SubtitleAccumulator;

const SECOND: u64 = 1_000_000_000;

const SECONDS: i64 = 1_000_000_000;

fn chars(s: &str) -> Vec<char> {
    s.chars().collect()
}

fn boxed(typ: &[u8; 4], payload: &[u8]) -> Vec<u8> {
    let mut v = ((payload.len() + 8) as u32).to_be_bytes().to_vec();
    v.extend_from_slice(typ);
    v.extend_from_slice(payload);
    v
}

#[test]
fn times_are_read_in_every_notation() {
    assert_eq!(parse_vtt_time(&chars("01:02:03.500")), Some(3_723_500_000_000));
    assert_eq!(parse_vtt_time(&chars("02:03,250")), Some(123_250_000_000));
    assert_eq!(parse_vtt_time(&chars("1.5")), Some(1_500_000_000));
    assert_eq!(parse_vtt_time(&chars("a:1")), None);
    assert_eq!(parse_vtt_time(&chars("1:2:3:4")), None);
    assert_eq!(parse_time_expression("250ms"), Some(250_000_000));
    assert_eq!(parse_time_expression(" 2.5s "), Some(2_500_000_000));
    assert_eq!(parse_time_expression("2m"), Some(120_000_000_000));
    assert_eq!(parse_time_expression("1h"), Some(3_600_000_000_000));
    assert_eq!(parse_time_expression("00:00:01:10"), Some(1_400_000_000));
    assert_eq!(parse_time_expression("xs"), None);
    assert_eq!(parse_time_expression("-1.5s"), Some(-1_500_000_000));
    assert_eq!(parse_vtt_time(&chars("-1:02")), Some(-58_000_000_000));
    assert_eq!(format_vtt_time(3_723_500_000_000), "01:02:03.500");
    assert_eq!(format_vtt_time(999_500_000), "00:00:01.000");
    assert_eq!(format_vtt_time(360_000 * 1_000_000_000), "100:00:00.000");
}

#[test]
fn timing_lines_keep_their_settings() {
    let (from, to, settings) =
        parse_vtt_timing_line(&chars("00:01.000 --> 00:02.000  line:0   align:left")).unwrap();
    assert_eq!((from, to), (1_000_000_000, 2_000_000_000));
    assert_eq!(settings, " line:0 align:left");
    assert!(parse_vtt_timing_line(&chars("00:01.000 -->")).is_none());
    assert_eq!(split_blocks("a\r\nb\r\n\r\n \n\nc").len(), 2);
}

#[test]
fn cues_are_shown_at_least_a_millisecond() {
    let body = webvtt_to_body(
        "WEBVTT\n\nNOTE x\n\nid-1\n00:01.000 --> 00:00.500 line:0\nhello\nworld\n",
        0,
        2 * SECOND,
    );
    assert_eq!(body, "id-1\n00:00:01.000 --> 00:00:01.001 line:0\nhello\nworld\n");
}

#[test]
fn cues_before_zero_follow_the_offset() {
    let text = "WEBVTT\n\n-2 --> 1\na\n";
    assert_eq!(
        webvtt_to_body(text, 5_000_000_000, SECOND),
        "00:00:03.000 --> 00:00:06.000\na\n"
    );
    assert_eq!(webvtt_to_body(text, 0, SECOND), "00:00:00.000 --> 00:00:01.000\na\n");
    assert_eq!(
        webvtt_to_body("WEBVTT\n\n1 --> 3\na\n", -2_000_000_000, SECOND),
        "00:00:00.000 --> 00:00:01.000\na\n"
    );
    assert_eq!(format_vtt_time(-1), "00:00:00.000");
}

#[test]
fn far_cues_are_moved_to_the_start() {
    let body = webvtt_to_body(
        "WEBVTT\n\n00:10:00.000 --> 00:10:01.000\na\n\n00:10:02.000 --> 00:10:03.000\nb\n",
        5_000_000_000,
        2 * SECOND,
    );
    assert_eq!(
        body,
        "00:00:05.000 --> 00:00:06.000\na\n\n00:00:07.000 --> 00:00:08.000\nb\n"
    );
    assert_eq!(webvtt_to_body("WEBVTT\n\nno cue", 0, SECOND), "");
    let last = "5124095576030:25:51.615";
    assert_eq!(
        webvtt_to_body("WEBVTT\n\ninf --> 3\na\n", 0, SECOND),
        format!("{last} --> {last}\na\n")
    );
    assert_eq!(
        webvtt_to_body("WEBVTT\n\n1 --> Infinity\na\n", 0, SECOND),
        format!("00:00:01.000 --> {last}\na\n")
    );
}

#[test]
fn paragraphs_of_a_document_become_cues() {
    let body = ttml_to_body(
        "<tt:tt><tt:p begin='1s' dur='500ms'>a &amp; b<tt:br/>c<![CDATA[ d ]]></tt:p>\
         <tt:p begin='2s'>e</tt:p><tt:p>f</tt:p><tt:p begin='3s' end='2s'>g</tt:p></tt:tt>",
        0,
        4 * SECOND,
    );
    assert_eq!(
        body,
        "00:00:01.000 --> 00:00:01.500\na & b\ncd\n\n00:00:02.000 --> 00:00:06.000\ne\n"
    );
    assert_eq!(ttml_to_body("<tt><p begin='1s'>x</q></tt>", 0, SECOND), "");
}

#[test]
fn cue_boxes_give_their_text() {
    let payl = boxed(b"payl", b" hello ");
    let cue = boxed(b"vttc", &payl);
    assert_eq!(extract_wvtt_payload(&cue).unwrap(), "hello");
    let mut two = cue.clone();
    two.extend_from_slice(&boxed(b"payl", b"world"));
    assert_eq!(extract_wvtt_payload(&two).unwrap(), "hello\nworld");
    assert!(extract_wvtt_payload(&boxed(b"vtte", b"")).is_none());
    assert_eq!(
        sample_payload_to_body(&cue, 1_000_000_000, SECOND),
        "00:00:01.000 --> 00:00:02.000\nhello\n"
    );
}

#[test]
fn fragments_of_samples_give_one_cue_each() {
    let cue = boxed(b"vttc", &boxed(b"payl", b"one"));
    let gap = boxed(b"vtte", b"");
    let mut trun = vec![0u8, 0, 0x03, 0x01];
    for n in [3u32, 0, 500, cue.len() as u32, 250, gap.len() as u32, 1_000, cue.len() as u32] {
        trun.extend_from_slice(&n.to_be_bytes());
    }
    let moof = boxed(b"moof", &boxed(b"traf", &boxed(b"trun", &trun)));
    let mut mdat = cue.clone();
    mdat.extend_from_slice(&gap);
    mdat.extend_from_slice(&cue);
    let mut data = moof;
    data.extend_from_slice(&boxed(b"mdat", &mdat));
    let body = fragment_to_vtt_body(&data, 2_000_000_000, 4_000_000_000, 1_000, None, None);
    assert_eq!(
        body,
        "00:00:02.000 --> 00:00:02.500\none\n\n00:00:02.750 --> 00:00:03.750\none\n"
    );
    assert_eq!(fragment_to_vtt_body(&[], 0, 0, 1_000, None, None), "");
    assert_eq!(fragment_to_vtt_body(&[0xff, 0xfe], 0, 0, 1_000, None, None), "");
}

#[test]
fn accumulated_cues_follow_each_other() {
    let mut acc = SubtitleAccumulator::new();
    acc.append_empty(2 * SECONDS);
    acc.append_empty(-SECONDS);
    acc.append_fragment(b"WEBVTT\n\n00:00.000 --> 00:01.000\nx\n", 3 * SECONDS, 1_000, None, None);
    acc.append_fragment(b"WEBVTT\n\n00:00.000 --> 00:01.000\ny\n", 3 * SECONDS, 1_000, None, None);
    assert_eq!(
        acc.take_body(),
        "00:00:02.000 --> 00:00:03.000\nx\n\n00:00:05.000 --> 00:00:06.000\ny\n"
    );
    assert_eq!(acc.take_body(), "");
    acc.append_empty(SECONDS);
    acc.clear();
    acc.append_fragment(b"WEBVTT\n\n00:00.000 --> 00:01.000\nz\n", SECONDS, 1_000, None, None);
    assert_eq!(acc.take_body(), "00:00:00.000 --> 00:00:01.000\nz\n");
    let mut body = String::new();
    append_body(&mut body, " ");
    assert_eq!(body, "");
}

#[test]
fn segments_of_text_and_numbers_of_seconds() {
    assert_eq!(seconds_up(0), 0);
    assert_eq!(seconds_up(1), 1);
    assert_eq!(seconds_up(4_000_000_000), 4);
    assert_eq!(seconds_up(4_000_000_001), 5);
    let mut out = String::new();
    push_seconds(&mut out, 6_006_000_000);
    assert!(out.starts_with("6.006"));
    assert_eq!(format_webvtt_segment(" 00:00 x\n\n"), "WEBVTT\n\n00:00 x\n");
    assert_eq!(hls_quote("a\"b\\c"), "a\\\"b\\\\c");
    assert_eq!(format_webvtt_segment(" "), "WEBVTT\n\n");
    assert_eq!(format_webvtt_segment("WEBVTT x"), "WEBVTT x\n");
}
