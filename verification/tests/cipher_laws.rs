//! Ciphers undone, keys found again, and the answers that carry keys.

use aes::cipher::generic_array::GenericArray;
use aes::cipher::{BlockEncrypt, KeyInit};

use dv_hls_gateway::config::{
    auth_key_from, generate_auth_key, needs_auth_key, setting_bool, setting_u64, setting_usize,
    AuthConfig, ConfigError, KeyApiConfig,
};
use dv_hls_gateway::crypto::cenc::{Decryptor, KeyStore};
use dv_hls_gateway::crypto::hls::{decrypt_aes128_cbc_pkcs7, CbcError};
use dv_hls_gateway::crypto::playready::{
    common_hex, kid_from_playready_blob, kid_from_playready_data_uri,
    playready_kid_value_to_common_hex,
};
use dv_hls_gateway::mp4::sample::{SampleInfo, SubSample};
use dv_hls_gateway::task::key_resolver::{
    after_key_failure, key_api_retry_delay, key_lines, missing_dynamic_kids, normalize_unique_kids,
    parse_key_api_response, parse_key_api_response_for_kids, resolve_key_store, store_of_lines,
    KeyApiError, KeyPlan, KeyRetry,
};
use dv_hls_gateway::task::manager::KeyMode;

const KID: &str = "00112233445566778899aabbccddeeff";
const KEY: &str = "ffeeddccbbaa99887766554433221100";

fn sample(len: usize, iv: Vec<u8>, subsamples: Vec<SubSample>) -> SampleInfo {
    SampleInfo {
        data_range: (0, len),
        duration: 0,
        cts_offset: 0,
        iv,
        subsamples,
    }
}

fn encrypt_block(key: [u8; 16], block: [u8; 16]) -> [u8; 16] {
    let mut b = GenericArray::clone_from_slice(&block);
    aes::Aes128::new(&key.into()).encrypt_block(&mut b);
    b.into()
}

#[test]
fn counter_mode_undoes_itself() {
    let d = Decryptor::new([7; 16]);
    let plain: Vec<u8> = (0..100).collect();
    let info = sample(100, vec![1, 2, 3, 4, 5, 6, 7, 8], Vec::new());
    let mut data = plain.clone();
    d.decrypt_sample(&mut data, &info);
    assert_ne!(data, plain);
    d.decrypt_sample(&mut data, &info);
    assert_eq!(data, plain);
}

#[test]
fn counter_mode_adds_the_encrypted_counter() {
    let key = [3u8; 16];
    let mut data = vec![0u8; 32];
    let mut iv = [0u8; 16];
    iv[..8].copy_from_slice(&[9; 8]);
    Decryptor::new(key).decrypt_sample(&mut data, &sample(32, vec![9; 8], Vec::new()));
    assert_eq!(data[..16], encrypt_block(key, iv));
    iv[15] = 1;
    assert_eq!(data[16..], encrypt_block(key, iv));
}

#[test]
fn clear_parts_stay_and_the_counter_runs_over_the_others() {
    let key = [5u8; 16];
    let d = Decryptor::new(key);
    let mut whole = vec![0u8; 20];
    d.decrypt_sample(&mut whole, &sample(20, vec![1; 16], Vec::new()));
    let mut parts = vec![0u8; 30];
    let subs = vec![
        SubSample { clear: 4, encrypted: 8 },
        SubSample { clear: 6, encrypted: 12 },
    ];
    d.decrypt_sample(&mut parts, &sample(30, vec![1; 16], subs));
    assert_eq!(parts[..4], [0; 4]);
    assert_eq!(parts[4..12], whole[..8]);
    assert_eq!(parts[12..18], [0; 6]);
    assert_eq!(parts[18..], whole[8..]);
}

#[test]
fn constant_vector_serves_samples_without_their_own() {
    let mut a = vec![0u8; 16];
    Decryptor::with_constant_iv([1; 16], [2; 16])
        .decrypt_sample(&mut a, &sample(16, Vec::new(), Vec::new()));
    assert_eq!(a[..], encrypt_block([1; 16], [2; 16]));
}

#[test]
fn segment_keeps_its_length_and_reaches_every_sample() {
    let d = Decryptor::new([8; 16]);
    let mut mdat = vec![0u8; 48];
    let mut second = sample(0, vec![2; 16], Vec::new());
    second.data_range = (16, 99);
    d.decrypt_segment(&mut mdat, &[sample(16, vec![1; 16], Vec::new()), second]);
    assert_eq!(mdat.len(), 48);
    assert_eq!(mdat[..16], encrypt_block([8; 16], [1; 16]));
    assert_eq!(mdat[16..32], encrypt_block([8; 16], [2; 16]));
}

#[test]
fn pattern_mode_keeps_the_skipped_blocks() {
    let d = Decryptor::cbcs_with_constant_iv([4; 16], [6; 16], 1, 9);
    let mut data = vec![0x55u8; 16 * 12 + 5];
    let n = data.len();
    d.decrypt_sample(&mut data, &sample(n, Vec::new(), Vec::new()));
    assert_eq!(data[16..160], [0x55; 144]);
    assert_ne!(data[..16], [0x55; 16]);
    assert_ne!(data[160..176], [0x55; 16]);
    assert_eq!(data[176..], [0x55; 21]);
}

#[test]
fn whole_segments_are_refused_by_length_and_padding() {
    assert_eq!(
        decrypt_aes128_cbc_pkcs7(&[0; 15], [0; 16], [0; 16]).unwrap_err(),
        CbcError::Length(15)
    );
    assert_eq!(
        decrypt_aes128_cbc_pkcs7(&encrypt_block([1; 16], [17; 16]), [1; 16], [0; 16]).unwrap_err(),
        CbcError::Padding
    );
    assert_eq!(
        decrypt_aes128_cbc_pkcs7(&encrypt_block([1; 16], [16; 16]), [1; 16], [0; 16]).unwrap(),
        Vec::<u8>::new()
    );
}

#[test]
fn keys_are_found_by_any_spelling_of_their_identifier() {
    let store = KeyStore::parse(&format!("\n  00112233-4455-6677-8899-AABBCCDDEEFF : {KEY}\n"));
    assert!(store.has_kid(KID));
    assert!(store.has_kid("00112233-4455-6677-8899-aabbCCDDEEFF"));
    assert_eq!(store.get(KID).unwrap()[0], 0xff);
    assert!(store.get("another").is_none());
    assert!(!store.has_bare_key());
}

#[test]
fn a_bare_key_serves_every_identifier() {
    let mut store = KeyStore::parse(KEY);
    assert!(store.has_bare_key());
    assert_eq!(store.get("whatever").unwrap()[15], 0);
    store.merge(KeyStore::parse(&format!("{KID}:{}", "11".repeat(16))));
    assert_eq!(store.get(KID), Some([0x11; 16]));
    assert!(KeyStore::parse("not hex\nabc").is_empty());
    assert!(KeyStore::default().is_empty());
}

#[test]
fn swapping_a_guid_twice_gives_it_back() {
    let raw: Vec<u8> = (0..16).collect();
    let once = common_hex(&raw).unwrap();
    assert_eq!(once, "030201000504070608090a0b0c0d0e0f");
    let swapped: Vec<u8> = (0..16)
        .map(|i| u8::from_str_radix(&once[2 * i..2 * i + 2], 16).unwrap())
        .collect();
    assert_eq!(common_hex(&swapped).unwrap(), "000102030405060708090a0b0c0d0e0f");
    assert!(common_hex(&raw[..15]).is_none());
}

#[test]
fn playready_objects_name_their_key() {
    assert_eq!(
        kid_from_playready_blob(b"<X><kid value='AAECAwQFBgcICQoLDA0ODw=='/></X>").unwrap(),
        "030201000504070608090a0b0c0d0e0f"
    );
    assert_eq!(
        playready_kid_value_to_common_hex(" 000102030405060708090A0B0C0D0E0F ").unwrap(),
        "030201000504070608090a0b0c0d0e0f"
    );
    assert!(playready_kid_value_to_common_hex("AAEC").is_none());
    assert!(kid_from_playready_data_uri("data:text/plain;base64,%%%").is_none());
    assert!(kid_from_playready_data_uri("https://x/y").is_none());
    assert!(kid_from_playready_blob(b"nothing here").is_none());
}

#[test]
fn identifiers_come_once_and_in_order() {
    let kids: Vec<String> = ["bb".repeat(16), "0xAA".to_string() + &"aa".repeat(15), "x".into(), "AA".repeat(16)]
        .into_iter()
        .collect();
    assert_eq!(normalize_unique_kids(&kids), ["aa".repeat(16), "bb".repeat(16)]);
}

#[test]
fn key_plan_follows_the_mode() {
    let kids = [KID.to_string()];
    assert!(matches!(resolve_key_store(KeyMode::Static, "", &kids), KeyPlan::Missing));
    match resolve_key_store(KeyMode::Static, "", &[]) {
        KeyPlan::Ready(s) => assert!(s.is_empty()),
        _ => panic!("an empty store is enough"),
    }
    match resolve_key_store(KeyMode::Static, &format!("{KID}:{KEY}"), &kids) {
        KeyPlan::Ready(s) => assert!(s.has_kid(KID)),
        _ => panic!("the key is given"),
    }
    match resolve_key_store(KeyMode::Dynamic, "", &kids) {
        KeyPlan::Fetch(k) => assert_eq!(k, kids),
        _ => panic!("the key is not given"),
    }
    assert!(matches!(resolve_key_store(KeyMode::Dynamic, "", &[]), KeyPlan::Ready(_)));
    assert_eq!(missing_dynamic_kids(&KeyStore::default(), &kids), kids);
    assert!(missing_dynamic_kids(&KeyStore::parse(KEY), &kids).is_empty());
    assert!(missing_dynamic_kids(&KeyStore::parse(&format!("{KID}:{KEY}")), &kids).is_empty());
}

#[test]
fn key_delays_grow_up_to_their_bound() {
    assert_eq!(key_api_retry_delay(1, 400, 8_000), 400);
    assert_eq!(key_api_retry_delay(2, 400, 8_000), 800);
    assert_eq!(key_api_retry_delay(50, 400, 8_000), 8_000);
    assert_eq!(key_api_retry_delay(3, 400, 100), 100);
    assert_eq!(key_api_retry_delay(1, 5, 2), 2);
    assert!(matches!(after_key_failure(1, 3, 400, 8_000), KeyRetry::Wait(400)));
    assert!(matches!(after_key_failure(2, 3, 400, 8_000), KeyRetry::Wait(800)));
    assert!(matches!(after_key_failure(3, 3, 400, 8_000), KeyRetry::GiveUp));
}

#[test]
fn key_replies_are_refused_one_by_one() {
    let asked = [KID.to_string()];
    let line = format!("{KID}:{KEY}");
    assert!(parse_key_api_response("{}").unwrap_err().message().starts_with(
        "dynamic key API returned invalid JSON string array: invalid type: map"
    ));
    assert!(matches!(parse_key_api_response("[\"a\",1]"), Err(KeyApiError::Json(_))));
    assert!(matches!(parse_key_api_response("[]"), Err(KeyApiError::Empty)));
    assert!(matches!(parse_key_api_response("[\" \"]"), Err(KeyApiError::NotPair(t)) if t.is_empty()));
    let blank = format!("[\"\", \"{line}\"]");
    assert!(matches!(parse_key_api_response(&blank), Err(KeyApiError::NotPair(_))));
    assert!(matches!(key_lines(&["abc".into()], &[]), Err(KeyApiError::NotPair(t)) if t == "abc"));
    assert!(matches!(key_lines(&["x:y".into()], &[]), Err(KeyApiError::BadKid(t)) if t == "x:y"));
    let bad = format!("{KID}:12");
    assert!(matches!(key_lines(&[bad], &[]), Err(KeyApiError::BadKey(t)) if t == KID));
    let other = format!("{}:{KEY}", "aa".repeat(16));
    match key_lines(&[other.clone()], &asked) {
        Err(KeyApiError::Missing(m)) => assert_eq!(m, asked),
        _ => panic!("an identifier is not answered"),
    }
    let text = format!("[\" {line} \", \"{other}\"]");
    assert_eq!(
        parse_key_api_response_for_kids(&text, &asked).unwrap(),
        format!("{line}\n{other}")
    );
    let reply = parse_key_api_response_for_kids(&text, &asked).unwrap();
    assert!(store_of_lines(&reply).unwrap().has_kid(KID));
    assert!(store_of_lines(&line).unwrap().has_kid(KID));
    assert!(matches!(store_of_lines("nothing"), Err(KeyApiError::NoUsableKeys)));
    assert!(KeyApiError::NoUsableKeys.message().contains("no usable keys"));
}

#[test]
fn panel_keys_are_random_digits_behind_a_mark() {
    let a = generate_auth_key();
    let b = generate_auth_key();
    assert_eq!(a.len(), 38);
    assert!(a.starts_with("dvhls-"));
    assert!(a[6..].chars().all(|c| c.is_ascii_digit() || ('a'..='f').contains(&c)));
    assert_ne!(a, b);
    assert_eq!(auth_key_from("12"), "dvhls-12");
}

#[test]
fn settings_fall_back_and_keep_their_least_value() {
    assert_eq!(setting_u64(None, 300, 30), 300);
    assert_eq!(setting_u64(Some(" 5 "), 300, 30), 30);
    assert_eq!(setting_u64(Some("x"), 300, 30), 300);
    assert_eq!(setting_usize(Some("7"), 10, 1), 7);
    assert_eq!(setting_usize(Some("0"), 10, 1), 1);
    assert!(!setting_bool(Some("0"), true));
    assert!(setting_bool(Some("1"), false));
    assert!(setting_bool(Some("maybe"), true));
    assert!(needs_auth_key(None));
    assert!(needs_auth_key(Some("  ")));
    assert!(!needs_auth_key(Some("k")));
}

#[test]
fn key_service_needs_address_and_token() {
    let mut api = KeyApiConfig::default();
    assert_eq!(api.require_endpoint().unwrap_err(), ConfigError::NoUrl);
    api.url = " http://h/k ".into();
    assert_eq!(api.require_endpoint().unwrap_err(), ConfigError::NoToken);
    assert!(ConfigError::NoToken.message().contains("key_api.token"));
    api.token = "t\n".into();
    assert_eq!(api.require_endpoint().unwrap(), ("http://h/k".to_string(), "t".to_string()));
    let auth = AuthConfig { key: " k ".into() };
    assert!(auth.admits("k"));
    assert!(!auth.admits(" k "));
    assert!(!AuthConfig { key: " ".into() }.admits(""));
}

#[test]
fn texts_of_keys_add_up() {
    let other = "ab".repeat(16);
    let parts = [
        (format!("{KID}:{KEY}\r"), format!("nothing\n{}:{other}", KID.to_uppercase())),
        (String::new(), format!("{KID}:{KEY}\n\n{other}")),
        (format!("{other}\n"), format!("\n{KID}:{KEY}")),
    ];
    for (a, b) in parts {
        let mut one = KeyStore::parse(&a);
        one.extend_from_text(&b);
        let both = KeyStore::parse(&format!("{a}\n{b}"));
        assert_eq!(one.get(KID), both.get(KID));
        assert_eq!(one.get("x"), both.get("x"));
        assert_eq!(one.has_bare_key(), both.has_bare_key());
        assert!(one.has_kid(KID) && both.has_kid(KID));
    }
    let mut store = KeyStore::parse(&format!("{KID}:{KEY}"));
    store.extend_from_text(&format!("{}:{other}\n\nzz", "11".repeat(16)));
    assert_eq!(store.get(KID), KeyStore::parse(KEY).get(""));
    store.extend_from_text(&format!("{KID}:{other}"));
    assert_eq!(store.get(KID), Some([0xab; 16]));
}

#[test]
fn playready_objects_agree_in_both_encodings() {
    for x in ["<KID>724Zm6/f3kyfZ8FOH2OUyg==</KID>", "<kid value='x'/>", "nothing", ""] {
        let wide: Vec<u8> = x.bytes().flat_map(|b| [b, 0]).collect();
        assert_eq!(kid_from_playready_blob(x.as_bytes()), kid_from_playready_blob(&wide));
    }
    assert_eq!(
        kid_from_playready_blob(b"<KID>724Zm6/f3kyfZ8FOH2OUyg==</KID>").as_deref(),
        Some("9b196eefdfaf4cde9f67c14e1f6394ca")
    );
}
