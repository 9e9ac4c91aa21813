//! Key identifiers and the answers of the key service.

use dv_hls_gateway::task::key_resolver::{normalize_kid, parse_key_api_response_for_kids};

#[test]
fn normalizes_kids() {
    assert_eq!(
        normalize_kid("0x00112233-4455-6677-8899-aabbccddeeff").unwrap(),
        "00112233445566778899aabbccddeeff"
    );
    assert!(normalize_kid("not-a-kid").is_none());
}

#[test]
fn parses_key_api_array() {
    let text = r#"[
      "00112233445566778899aabbccddeeff:8ad11538e926554d58d389209643b9e1",
      "11223344556677889900aabbccddeeff:9ad11538e926554d58d389209643b9e1"
    ]"#;
    let parsed = parse_key_api_response_for_kids(
        text,
        &["00112233445566778899aabbccddeeff".to_string()],
    )
    .unwrap();
    assert!(
        parsed.contains("00112233445566778899aabbccddeeff:8ad11538e926554d58d389209643b9e1")
    );
    assert!(parsed.contains('\n'));
}

#[test]
fn key_api_array_must_contain_kid_key_items() {
    let bare = r#"["8ad11538e926554d58d389209643b9e1"]"#;
    assert!(parse_key_api_response_for_kids(
        bare,
        &["00112233445566778899aabbccddeeff".to_string()]
    )
    .is_err());

    let invalid_key = r#"["00112233445566778899aabbccddeeff:not-a-key"]"#;
    assert!(parse_key_api_response_for_kids(
        invalid_key,
        &["00112233445566778899aabbccddeeff".to_string()]
    )
    .is_err());
}

#[test]
fn key_api_array_must_cover_requested_kids() {
    let text = r#"["aaaaaaaaaaaaaaaaaaaaaaaaaaaaaaaa:8ad11538e926554d58d389209643b9e1"]"#;
    let err = parse_key_api_response_for_kids(
        text,
        &["00112233445566778899aabbccddeeff".to_string()],
    )
    .unwrap_err()
    .message();
    assert!(err.contains("00112233445566778899aabbccddeeff"));
}

#[test]
fn key_api_response_must_be_json_string_array() {
    assert!(parse_key_api_response_for_kids(
        r#"{"kid":"00112233445566778899aabbccddeeff"}"#,
        &["00112233445566778899aabbccddeeff".to_string()]
    )
    .is_err());
}
