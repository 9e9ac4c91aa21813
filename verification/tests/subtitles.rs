//! Subtitles.

use dv_hls_gateway::subtitle::ttml::ttml_to_body;
use dv_hls_gateway::subtitle::webvtt::webvtt_to_body;

#[test]
fn webvtt_body_offsets_cues() {
    let body = webvtt_to_body("WEBVTT\n\n00:00:01.000 --> 00:00:02.000\nhi\n", 4_000_000_000, 2_000_000_000);
    assert!(body.contains("00:00:05.000 --> 00:00:06.000"));
}

#[test]
fn ttml_body_extracts_p_cues() {
    let body = ttml_to_body(
        r#"<tt><body><div><p begin="00:00:01.000" end="00:00:03.000">hello</p></div></body></tt>"#,
        2_000_000_000,
        4_000_000_000,
    );
    assert!(body.contains("00:00:03.000 --> 00:00:05.000"));
    assert!(body.contains("hello"));
}
