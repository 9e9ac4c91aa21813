//! Texts, numbers and boxes.

use dv_hls_gateway::mp4::avcc::{find_avcc_in_init, parse_avcc};
use dv_hls_gateway::mp4::boxes::{find_box, iter_boxes, locate, CONTAINERS};
use dv_hls_gateway::mp4::mdhd::timescale_from_init;
use dv_hls_gateway::mp4::sample::parse_media_segment_with_default_iv_size;
use dv_hls_gateway::mp4::{DoviConfig, ParamSets, TrackEncryption};
use dv_hls_gateway::text::{
    from_chars, from_hex, is_less, parse_number, push_decimal, replace, split, split_lines,
    split_words, to_chars, to_hex, trim, trim_char,
};
use dv_hls_gateway::time::{
    add64, add_durations, at_least_zero, parse_decimal_ns, to_duration, Span, GREATEST,
};

fn text(v: Vec<char>) -> String {
    from_chars(&v)
}

#[test]
fn trimming_twice_changes_nothing() {
    let once = trim(&to_chars("\u{3000} a b \n\u{85}"));
    assert_eq!(text(once.clone()), "a b");
    assert_eq!(trim(&once), once);
    assert_eq!(text(trim_char(&to_chars("--a-b-"), '-')), "a-b");
}

#[test]
fn bytes_survive_their_digits() {
    let bytes: Vec<u8> = (0..=255).collect();
    let shown = to_hex(&bytes);
    assert!(shown.starts_with("000102") && shown.ends_with("feff"));
    assert_eq!(from_hex(&to_chars(&shown)).unwrap(), bytes);
    assert_eq!(from_hex(&to_chars("AbC")), None);
    assert_eq!(from_hex(&to_chars("0g")), None);
}

#[test]
fn numbers_survive_their_digits() {
    for n in [0u64, 7, 10, 65_535, u64::MAX] {
        let mut s = String::new();
        push_decimal(&mut s, n);
        assert_eq!(s, n.to_string());
        assert_eq!(parse_number(&to_chars(&s), u64::MAX), Some(n));
    }
    assert_eq!(parse_number(&to_chars("18446744073709551616"), u64::MAX), None);
    assert_eq!(parse_number(&to_chars("+5"), 10), Some(5));
    assert_eq!(parse_number(&to_chars("11"), 10), None);
    assert_eq!(parse_number(&to_chars("-5"), 10), None);
    assert_eq!(parse_number(&to_chars(""), 10), None);
}

#[test]
fn texts_are_split_and_ordered() {
    let lines: Vec<String> = split_lines("a\r\nb\n\nc").into_iter().map(text).collect();
    assert_eq!(lines, ["a", "b", "", "c"]);
    let parts: Vec<String> = split(&to_chars("a,,b"), ',').into_iter().map(text).collect();
    assert_eq!(parts, ["a", "", "b"]);
    let words: Vec<String> = split_words(&to_chars("  a\tb ")).into_iter().map(text).collect();
    assert_eq!(words, ["a", "b"]);
    assert_eq!(text(replace(&to_chars("$N$-$N$"), "$N$", &to_chars("12"))), "12-12");
    assert!(is_less("a", "b") && is_less("a", "aa") && !is_less("b", "aa"));
}

#[test]
fn durations_keep_nine_digits() {
    assert_eq!(parse_decimal_ns(&to_chars("5.944")), Some(5_944_000_000));
    assert_eq!(parse_decimal_ns(&to_chars(".5")), Some(500_000_000));
    assert_eq!(parse_decimal_ns(&to_chars("3")), Some(3_000_000_000));
    assert_eq!(parse_decimal_ns(&to_chars("x")), None);
    assert_eq!(parse_decimal_ns(&to_chars("-2.5")), Some(-2_500_000_000));
    assert_eq!(parse_decimal_ns(&to_chars("+1.5e3")), Some(1_500_000_000_000));
    assert_eq!(parse_decimal_ns(&to_chars("12E-1")), Some(1_200_000_000));
    assert_eq!(parse_decimal_ns(&to_chars("0e99")), Some(0));
    assert_eq!(parse_decimal_ns(&to_chars("1e-99")), Some(0));
    assert_eq!(parse_decimal_ns(&to_chars("1e99")), Some(GREATEST as i128));
    assert_eq!(parse_decimal_ns(&to_chars("INF")), Some(GREATEST as i128));
    assert_eq!(parse_decimal_ns(&to_chars("-infinity")), Some(-(GREATEST as i128)));
    assert_eq!(parse_decimal_ns(&to_chars("infinit")), None);
    assert_eq!(parse_decimal_ns(&to_chars("1e")), None);
    assert_eq!(parse_decimal_ns(&to_chars(".")), None);
    assert_eq!((to_duration(-1), to_duration(i128::MIN)), (-1, i64::MIN));
    assert_eq!((to_duration(7), to_duration(i128::MAX)), (7, i64::MAX));
    assert_eq!((add_durations(5, -7), add_durations(i64::MAX, 1)), (-2, i64::MAX));
    assert_eq!((at_least_zero(-3), at_least_zero(3)), (0, 3));
    assert_eq!(Span { ticks: 1_001, scale: 24_000 }.to_ns(), 41_708_333);
    assert_eq!(Span { ticks: 3, scale: 0 }.ticks_per_second(), 1);
    assert_eq!(Span::from_ns(5).to_ns(), 5);
    assert_eq!(add64(u64::MAX, 2), 1);
}

fn boxed(typ: &[u8; 4], payload: &[u8]) -> Vec<u8> {
    let mut v = ((payload.len() + 8) as u32).to_be_bytes().to_vec();
    v.extend_from_slice(typ);
    v.extend_from_slice(payload);
    v
}

#[test]
fn boxes_end_where_their_sizes_say() {
    let mut long = vec![0, 0, 0, 1];
    long.extend_from_slice(b"free");
    long.extend_from_slice(&17u64.to_be_bytes());
    long.push(9);
    long.extend_from_slice(&[0, 0, 0, 0]);
    long.extend_from_slice(b"mdat\x01\x02");
    let b = iter_boxes(&long);
    assert_eq!(b.len(), 2);
    assert_eq!((b[0].payload, b[0].total_size), (&[9u8][..], 17));
    assert_eq!((b[1].payload, b[1].type_str()), (&[1u8, 2][..], "mdat".to_string()));
    assert!(iter_boxes(&[0, 0, 0, 9, 1, 2, 3, 4]).is_empty());
    assert!(iter_boxes(&[0, 0, 0, 7, 1, 2, 3, 4]).is_empty());
    assert_eq!(iter_boxes(&boxed(&[0xff; 4], &[]))[0].type_str(), "\u{fffd}".repeat(4));
}

#[test]
fn boxes_are_found_at_any_depth() {
    let inner = boxed(b"trak", &boxed(b"mdia", &boxed(b"abcd", &[5])));
    let init = boxed(b"moov", &inner);
    assert_eq!(find_box(&init, b"abcd", &CONTAINERS), Some(&[5u8][..]));
    assert_eq!(find_box(&init, b"abce", &CONTAINERS), None);
    let mut hidden = vec![1, 2, 3];
    hidden.extend_from_slice(&boxed(b"abcd", &[6]));
    assert_eq!(locate(&boxed(b"encv", &hidden), b"abcd"), Some(&[6u8][..]));
    let mut mdhd = vec![0u8; 24];
    mdhd[14] = 1;
    assert_eq!(timescale_from_init(&boxed(b"mdhd", &mdhd)), Some(256));
    assert_eq!(timescale_from_init(&[]), None);
}

#[test]
fn parameter_sets_are_read_from_their_boxes() {
    let mut p = vec![0u8; 22];
    p.push(3);
    for (typ, nal) in [(32u8, 0xa1u8), (33, 0xa2), (34, 0xa3)] {
        p.extend_from_slice(&[typ, 0, 1, 0, 2, nal, nal]);
    }
    let sets = ParamSets::find_in_init(&boxed(b"hvcC", &p)).unwrap();
    assert_eq!(sets.flat(), [vec![0xa1, 0xa1], vec![0xa2, 0xa2], vec![0xa3, 0xa3]]);
    assert!(!sets.is_empty());
    assert!(ParamSets::default().is_empty());
    assert!(ParamSets::find_in_init(&[]).is_none());
    assert!(parse_avcc(&[1, 2, 3]).is_none());
    assert!(find_avcc_in_init(&[]).is_none());
    let dv = boxed(b"dvvC", &[1, 0, 0x10, 0x4d, 0x40]);
    assert_eq!(DoviConfig::find_in_init(&dv).unwrap().profile, 8);
}

#[test]
fn schemes_are_read_beside_the_key() {
    let mut tenc = vec![0u8; 24];
    tenc[6] = 1;
    tenc[7] = 8;
    let mut schi = boxed(b"schm", b"\0\0\0\0cbcs\0\x01\0\0");
    schi.extend_from_slice(&boxed(b"tenc", &tenc));
    let t = TrackEncryption::find_in_init(&boxed(b"sinf", &schi)).unwrap();
    assert!(t.is_cbcs());
    assert_eq!(t.kid, "0".repeat(32));
    assert!(TrackEncryption::parse(&[0; 10]).is_none());
}

#[test]
fn samples_take_the_defaults_of_their_fragment() {
    let mut tfhd = vec![0u8, 0, 0, 0x18];
    tfhd.extend_from_slice(&[0, 0, 0, 1]);
    tfhd.extend_from_slice(&100u32.to_be_bytes());
    tfhd.extend_from_slice(&2u32.to_be_bytes());
    let mut trun = vec![0u8, 0, 0, 0];
    trun.extend_from_slice(&2u32.to_be_bytes());
    let mut senc = vec![0u8, 0, 0, 0];
    senc.extend_from_slice(&2u32.to_be_bytes());
    senc.extend_from_slice(&[1; 8]);
    senc.extend_from_slice(&[2; 8]);
    let mut traf = boxed(b"tfhd", &tfhd);
    traf.extend_from_slice(&boxed(b"trun", &trun));
    traf.extend_from_slice(&boxed(b"senc", &senc));
    let mut data = boxed(b"moof", &boxed(b"traf", &traf));
    data.extend_from_slice(&boxed(b"mdat", &[1, 2, 3, 4]));
    let p = parse_media_segment_with_default_iv_size(&data, Some(8)).unwrap();
    let got: Vec<_> = p.samples.iter().map(|s| (s.data_range, s.duration, s.iv.clone())).collect();
    assert_eq!(got, [((0, 2), 100, vec![1; 8]), ((2, 4), 100, vec![2; 8])]);
    assert_eq!(p.mdat, [1, 2, 3, 4]);
}
