//! A task on a playlist, from its segments to what is published.

use aes::cipher::generic_array::GenericArray;
use aes::cipher::{BlockEncrypt, KeyInit};

use dv_hls_gateway::crypto::cenc::{Decryptor, KeyStore};
use dv_hls_gateway::crypto::hls::{iv_from_media_sequence, CbcError};
use dv_hls_gateway::hls::{
    HlsMaster, HlsMediaPlaylist, HlsRendition, HlsSegment, HlsSegmentKey, HlsVariant,
};
use dv_hls_gateway::mp4::sample::SampleInfo;
use dv_hls_gateway::mp4::TrackEncryption;
use dv_hls_gateway::task::batch::Batch;
use dv_hls_gateway::task::buffer::{Line, UNSET_ORIGIN};
use dv_hls_gateway::task::hls_fmp4::{
    build_fmp4_decryptor, ensure_fmp4_key, hls_key_iv, hls_key_kid, map_of,
    playlist_advertised_kids, DownloadedFmp4Segment, Fmp4Advance, Fmp4Context, Fmp4Error,
    Fmp4Setup, Fmp4TrackKind, TrackSetup,
};
use dv_hls_gateway::task::hls_run::{at_end, map_changed, past_failure, After, HlsRun, Progress};
use dv_hls_gateway::task::hls_source::{
    build_fmp4_jobs, build_ts_jobs, initial_sequence, is_blank, media_segment_duration,
    select_audio_rendition, select_subtitle_rendition, select_variant,
    subtitle_segment_for_hls_video, Cursor, Fmp4Job, RenditionError, SelectedHlsInput,
};
use dv_hls_gateway::task::hls_ts::{hls_ts_key_marker, KeyStep, TsContext, TsSegmentError};

const SECOND: i64 = 1_000_000_000;

fn segment(sequence: u64, seconds: i64, key: HlsSegmentKey) -> HlsSegment {
    HlsSegment {
        sequence,
        uri: format!("http://h/{sequence}"),
        duration_ns: seconds * SECOND,
        key,
        discontinuity: false,
    }
}

fn playlist(first: u64, count: u64, seconds: i64) -> HlsMediaPlaylist {
    HlsMediaPlaylist {
        uri: "http://h/p".into(),
        target_duration: 6,
        media_sequence: first,
        end_list: false,
        has_map: true,
        map_uri: Some("http://h/init".into()),
        segments: (first..first + count)
            .map(|n| segment(n, seconds, HlsSegmentKey::Clear))
            .collect(),
    }
}

fn aes128(uri: &str) -> HlsSegmentKey {
    HlsSegmentKey::Aes128 { uri: uri.into(), iv: None }
}

fn encrypted(plain: &[u8; 15], key: [u8; 16], iv: [u8; 16]) -> Vec<u8> {
    let mut block = [1u8; 16];
    block[..15].copy_from_slice(plain);
    for i in 0..16 {
        block[i] ^= iv[i];
    }
    let mut b = GenericArray::clone_from_slice(&block);
    aes::Aes128::new(&key.into()).encrypt_block(&mut b);
    b.to_vec()
}

#[test]
fn clear_segments_pass_through() {
    let mut c = TsContext::new("");
    let seg = segment(1, 6, HlsSegmentKey::Clear);
    assert!(matches!(c.begin_segment(&seg), Ok(KeyStep::Plain)));
    assert!(c.append_segment(&seg, &[1, 2, 3], None, None).is_ok());
    let p = c.take_published();
    assert_eq!((p.len(), p[0].data.clone(), p[0].duration_ns), (1, vec![1, 2, 3], 6 * SECOND));
    assert!(!p[0].discontinuity);
}

#[test]
fn short_segments_are_put_together_and_broken_at_marks() {
    let mut c = TsContext::new("");
    for n in 0..4u64 {
        let mut seg = segment(n, 3, HlsSegmentKey::Clear);
        seg.discontinuity = n == 1;
        assert!(c.begin_segment(&seg).is_ok());
        let text = b"WEBVTT\n\n00:00.000 --> 00:01.000\nx\n";
        assert!(c.append_segment(&seg, &[n as u8], None, Some(text)).is_ok());
    }
    let p = c.take_published();
    assert_eq!(p.len(), 2);
    assert_eq!((p[0].data.clone(), p[0].discontinuity), (vec![0], false));
    assert_eq!((p[1].data.clone(), p[1].discontinuity), (vec![1, 2, 3], true));
    assert_eq!(p[1].duration_ns, 9 * SECOND);
    assert_eq!(p[1].subtitle.matches("-->").count(), 3);
    let seg = segment(9, 3, HlsSegmentKey::Clear);
    assert!(c.append_segment(&seg, &[9], None, None).is_ok());
    c.mark_gap();
    assert_eq!(c.take_published().len(), 1);
    c.mark_break();
    c.flush();
    assert!(c.take_published().is_empty());
}

#[test]
fn a_key_is_fetched_once() {
    let mut c = TsContext::new("");
    let seg = segment(0x0102, 6, aes128("http://h/k"));
    match c.begin_segment(&seg) {
        Ok(KeyStep::Fetch(uri)) => assert_eq!(uri, "http://h/k"),
        _ => panic!("the key is not known yet"),
    }
    assert!(matches!(c.keep_key("http://h/k", b"short"), Err(TsSegmentError::NoKey)));
    let key = c.keep_key("http://h/k", &[7; 16]).unwrap();
    assert!(matches!(c.begin_segment(&seg), Ok(KeyStep::Key(k)) if k == [7; 16]));
    let data = encrypted(b"fifteen bytes..", key, iv_from_media_sequence(0x0102));
    assert!(c.append_segment(&seg, &data, Some(key), None).is_ok());
    assert_eq!(c.take_published()[0].data, b"fifteen bytes..");
    match c.append_segment(&seg, &data[1..], Some(key), None) {
        Err(TsSegmentError::Cipher(e)) => assert_eq!(e, CbcError::Length(15)),
        _ => panic!("a part of a block"),
    }
    let mut fixed = TsContext::new(&"09".repeat(16));
    assert!(matches!(fixed.begin_segment(&seg), Ok(KeyStep::Key(k)) if k == [9; 16]));
}

#[test]
fn sample_encryption_needs_a_map() {
    let mut c = TsContext::new("");
    let ctr = HlsSegmentKey::SampleAesCtr { key_format: "f".into(), uri: None };
    let cbc = HlsSegmentKey::SampleAes { key_format: "f".into(), uri: None, iv: None };
    let other = HlsSegmentKey::Unsupported { method: "M".into(), key_format: "f".into() };
    let mut words = |k: HlsSegmentKey| c.begin_segment(&segment(1, 1, k)).unwrap_err().message();
    assert_eq!(words(ctr), "HLS SAMPLE-AES-CTR (keyformat=f) requires fMP4 EXT-X-MAP input");
    assert_eq!(words(cbc), "HLS SAMPLE-AES (keyformat=f) requires fMP4 EXT-X-MAP input");
    assert_eq!(words(other), "unsupported HLS encryption method M (keyformat=f)");
    assert_eq!(TsSegmentError::NoKey.message(), "HLS key URI returned unexpected body length");
    assert!(hls_ts_key_marker(&HlsSegmentKey::Clear).is_none());
    assert_ne!(hls_ts_key_marker(&aes128("a")), hls_ts_key_marker(&aes128("b")));
}

#[test]
fn markers_of_sample_keys_show_the_address() {
    let ctr = |uri: Option<&str>| {
        let uri = uri.map(String::from);
        hls_ts_key_marker(&HlsSegmentKey::SampleAesCtr { key_format: "f".into(), uri }).unwrap()
    };
    assert_eq!(ctr(None), "sample-aes-ctr:None");
    assert_eq!(ctr(Some("http://k/1")), "sample-aes-ctr:Some(\"http://k/1\")");
    assert_eq!(ctr(Some("a\"\n")), "sample-aes-ctr:Some(\"a\\\"\\n\")");
    let cbc = HlsSegmentKey::SampleAes { key_format: "f".into(), uri: Some("k".into()), iv: None };
    assert_eq!(hls_ts_key_marker(&cbc).unwrap(), "sample-aes:Some(\"k\")");
}

#[test]
fn a_negative_duration_is_taken_off() {
    let mut c = TsContext::new("");
    for (n, seconds) in [(0u64, 3i64), (1, -2), (2, 3), (3, 5)] {
        let seg = segment(n, seconds, HlsSegmentKey::Clear);
        assert!(c.begin_segment(&seg).is_ok());
        assert!(c.append_segment(&seg, &[n as u8], None, None).is_ok());
    }
    let p = c.take_published();
    assert_eq!((p.len(), p[0].duration_ns), (1, 9 * SECOND));
}

#[test]
fn a_new_key_ends_the_segments_put_together() {
    let mut c = TsContext::new(&"09".repeat(16));
    for (n, uri) in [(0u64, "a"), (1, "a"), (2, "b")] {
        let seg = segment(n, 2, aes128(uri));
        assert!(c.begin_segment(&seg).is_ok());
        let data = encrypted(b"fifteen bytes..", [9; 16], iv_from_media_sequence(n));
        assert!(c.append_segment(&seg, &data, Some([9; 16]), None).is_ok());
    }
    let p = c.take_published();
    assert_eq!((p.len(), p[0].duration_ns), (1, 4 * SECOND));
    c.flush();
    assert_eq!(c.take_published()[0].duration_ns, 2 * SECOND);
}

fn input(audio: Option<HlsMediaPlaylist>) -> SelectedHlsInput {
    SelectedHlsInput {
        video_url: "v".into(),
        video: playlist(10, 4, 2),
        audio_url: None,
        audio,
        subtitle_url: None,
        subtitle: None,
    }
}

#[test]
fn no_segment_is_taken_twice() {
    let input = input(None);
    let mut cursor = Cursor::enter(&input.video, 11);
    assert_eq!(cursor.seen, ["http://h/10"]);
    let jobs = build_ts_jobs(&input, &cursor.seen);
    assert_eq!(jobs.iter().map(|j| j.video.sequence).collect::<Vec<_>>(), [11, 12, 13]);
    cursor.move_to(&input.video, 13);
    let left: Vec<u64> =
        build_fmp4_jobs(&input, &cursor.seen).iter().map(|j| j.sequence).collect();
    assert_eq!(left, [13]);
    assert!(cursor.has_unseen_hls_segment_at_or_after(&input.video));
    cursor.move_to(&input.video, 14);
    assert!(build_fmp4_jobs(&input, &cursor.seen).is_empty());
    assert!(!cursor.has_unseen_hls_segment_at_or_after(&input.video));
    cursor.restart(&playlist(3, 2, 2));
    assert_eq!((cursor.next_sequence, cursor.seen.len()), (3, 0));
}

#[test]
fn jobs_wait_for_their_sound() {
    let i = input(Some(playlist(10, 2, 2)));
    let jobs = build_fmp4_jobs(&i, &[]);
    assert_eq!(jobs.len(), 2);
    assert!(jobs.iter().all(|j| j.audio.as_ref().map(|a| a.sequence) == Some(j.sequence)));
}

#[test]
fn subtitles_follow_by_number_or_by_overlap() {
    let s = playlist(100, 3, 2);
    let by_number = subtitle_segment_for_hls_video(&segment(101, 2, HlsSegmentKey::Clear), &s);
    assert_eq!(by_number.unwrap().sequence, 101);
    let by_overlap = subtitle_segment_for_hls_video(&segment(7, 2, HlsSegmentKey::Clear), &s);
    assert_eq!(by_overlap.unwrap().sequence, 100);
    let mut back = playlist(100, 2, 3);
    back.segments[0].duration_ns = -SECOND;
    let behind = subtitle_segment_for_hls_video(&segment(7, 2, HlsSegmentKey::Clear), &back);
    assert_eq!(behind.unwrap().sequence, 101);
    let none = subtitle_segment_for_hls_video(&segment(700, 0, HlsSegmentKey::Clear), &s);
    assert!(none.is_none());
}

#[test]
fn a_live_playlist_is_entered_near_its_end() {
    let p = playlist(100, 20, 6);
    assert_eq!(initial_sequence(0, &p, 1), 116);
    assert_eq!(initial_sequence(105, &p, 1), 105);
    let mut done = playlist(100, 20, 6);
    done.end_list = true;
    assert_eq!(initial_sequence(0, &done, 1), 100);
    assert_eq!(media_segment_duration(&p).to_ns(), 6 * SECOND);
    assert_eq!(media_segment_duration(&playlist(0, 0, 1)).to_ns(), 6 * SECOND);
    assert_eq!(media_segment_duration(&playlist(0, 1, -3)).to_ns(), 0);
    let mut endless = playlist(0, 1, 1);
    endless.segments[0].duration_ns = i64::MAX;
    assert_eq!(media_segment_duration(&endless).to_ns(), 0);
    assert!(is_blank(" \t"));
}

fn rendition(id: &str, group: &str, is_default: bool) -> HlsRendition {
    HlsRendition {
        id: id.into(),
        group_id: group.into(),
        name: "".into(),
        uri: "".into(),
        language: "".into(),
        channels: "".into(),
        is_default,
    }
}

#[test]
fn renditions_are_chosen_in_their_group() {
    let r = [rendition("0", "x", true), rendition("1", "g", false), rendition("2", "g", true)];
    assert!(select_audio_rendition(&r, None, Some("0")).unwrap().is_none());
    assert_eq!(select_audio_rendition(&r, Some("g"), None).unwrap().unwrap().id, "2");
    assert_eq!(select_audio_rendition(&r, Some("g"), Some("1")).unwrap().unwrap().id, "1");
    assert!(select_audio_rendition(&r, Some("q"), Some(" ")).unwrap().is_none());
    assert!(matches!(
        select_audio_rendition(&r, Some("g"), Some("9")),
        Err(RenditionError::NotFound)
    ));
    assert!(matches!(
        select_audio_rendition(&r, Some("g"), Some("0")),
        Err(RenditionError::WrongGroup(g)) if g == "x"
    ));
    assert!(select_subtitle_rendition(&r, None, false, None).unwrap().is_none());
    assert!(matches!(
        select_subtitle_rendition(&r, None, true, None),
        Err(RenditionError::NoGroup)
    ));
    assert_eq!(select_subtitle_rendition(&r, Some("g"), true, None).unwrap().unwrap().id, "2");
    let master = HlsMaster {
        variants: vec![HlsVariant {
            id: "hls-0".into(),
            uri: "".into(),
            audio_group: None,
            subtitles_group: None,
            bandwidth: 0,
            codecs: "".into(),
            width: 0,
            height: 0,
            video_range: "".into(),
        }],
        audio: vec![],
        subtitles: vec![],
    };
    assert!(select_variant(&master, "hls-0").is_some());
    assert!(select_variant(&master, "hls-1").is_none());
}

fn boxed(typ: &[u8; 4], payload: &[u8]) -> Vec<u8> {
    let mut v = ((payload.len() + 8) as u32).to_be_bytes().to_vec();
    v.extend_from_slice(typ);
    v.extend_from_slice(payload);
    v
}

fn init(timescale: u32) -> Vec<u8> {
    let mut p = vec![0u8; 24];
    p[12..16].copy_from_slice(&timescale.to_be_bytes());
    boxed(b"moov", &boxed(b"mdhd", &p))
}

fn fragment(tfdt: u64, ticks: u32, data: &[u8]) -> Vec<u8> {
    let mut t = vec![1u8, 0, 0, 0];
    t.extend_from_slice(&tfdt.to_be_bytes());
    let mut trun = vec![0u8, 0, 0x03, 0x01];
    for n in [1u32, 0, ticks, data.len() as u32] {
        trun.extend_from_slice(&n.to_be_bytes());
    }
    let mut traf = boxed(b"tfdt", &t);
    traf.extend_from_slice(&boxed(b"trun", &trun));
    let mut out = boxed(b"moof", &boxed(b"traf", &traf));
    out.extend_from_slice(&boxed(b"mdat", data));
    out
}

fn picture(tfdt: u64, ticks: u32) -> Vec<u8> {
    fragment(tfdt, ticks, &[0, 0, 0, 3, 0x28, 1, 9])
}

fn context(store: KeyStore) -> Fmp4Context {
    let selected = input(None);
    let setup = Fmp4Setup::read(&selected, "hvc1,ec-3", &init(10), None, None).unwrap();
    assert_eq!(setup.video_timescale, 10);
    let line = Line { origin: UNSET_ORIGIN, total: 0 };
    setup.start(&selected, store, None, line, line)
}

fn fetched(seg: HlsSegment, data: Vec<u8>) -> DownloadedFmp4Segment {
    DownloadedFmp4Segment {
        job: Fmp4Job { sequence: seg.sequence, video: seg, audio: None, subtitle: None },
        video: data,
        audio: None,
        subtitle: None,
    }
}

#[test]
fn fragments_are_put_together_and_published() {
    let mut c = context(KeyStore::default());
    let mut batch = Batch::new(vec![1, 2, 3, 4, 5]);
    for n in 1..5u64 {
        let seg = segment(n, 2, HlsSegmentKey::Clear);
        batch.arrived(n, fetched(seg, picture(20 * n, 20)));
    }
    batch.lost(5);
    for n in 1..5u64 {
        assert!(matches!(c.advance(&mut batch, false), Fmp4Advance::Processed(m) if m == n));
    }
    assert!(matches!(c.advance(&mut batch, false), Fmp4Advance::Lost(5)));
    let p = c.take_published();
    assert_eq!((p.len(), p[0].duration_ns, p[0].discontinuity), (1, 8 * SECOND, false));
    assert_eq!(p[0].data.len() % 188, 0);
    assert_eq!(c.video_line.origin, 20);
    let mut seg = segment(6, 5, HlsSegmentKey::Clear);
    seg.discontinuity = true;
    assert!(c.process_fmp4_segment(&fetched(seg, picture(500, 50))).is_ok());
    let p = c.take_published();
    assert_eq!((p[0].duration_ns, p[0].discontinuity), (5 * SECOND, true));
    assert_eq!(c.video_line.origin, 500);
    let seg = segment(7, 5, HlsSegmentKey::Clear);
    assert!(c.process_fmp4_segment(&fetched(seg, picture(10, 50))).is_ok());
    assert!(c.take_published()[0].discontinuity);
}

/// A fragment of two frames that lacks the bytes of the second.
fn cut_picture() -> Vec<u8> {
    let mut trun = vec![0u8, 0, 0x03, 0x01];
    for n in [2u32, 0, 1, 6, 1, 6] {
        trun.extend_from_slice(&n.to_be_bytes());
    }
    let mut out = boxed(b"moof", &boxed(b"traf", &boxed(b"trun", &trun)));
    out.extend_from_slice(&boxed(b"mdat", &[0, 0, 0, 1]));
    out
}

#[test]
fn both_tracks_are_read_before_their_frames() {
    let mut c = context(KeyStore::default());
    let mut refused = |video: Vec<u8>, audio: Option<Vec<u8>>| {
        let mut seg = fetched(segment(8, 5, HlsSegmentKey::Clear), video);
        seg.audio = audio;
        c.process_fmp4_segment(&seg).unwrap_err()
    };
    assert!(matches!(refused(cut_picture(), None), Fmp4Error::VideoTruncated));
    assert!(matches!(refused(cut_picture(), Some(vec![0])), Fmp4Error::AudioUnreadable));
    let whole = picture(0, 1);
    assert!(matches!(refused(cut_picture(), Some(whole)), Fmp4Error::VideoTruncated));
    assert!(matches!(refused(picture(0, 1), Some(cut_picture())), Fmp4Error::AudioTruncated));
}

#[test]
fn fragments_are_refused_by_reason() {
    let mut c = context(KeyStore::default());
    let mut words = |k: HlsSegmentKey, data: Vec<u8>| {
        c.process_fmp4_segment(&fetched(segment(8, 5, k), data)).unwrap_err().message(8)
    };
    let ctr = HlsSegmentKey::SampleAesCtr { key_format: "f".into(), uri: None };
    let other = HlsSegmentKey::Unsupported { method: "M".into(), key_format: "f".into() };
    assert_eq!(
        words(aes128("k"), vec![]),
        "HLS AES-128 full-segment encryption is not valid for fMP4 EXT-X-MAP input"
    );
    assert_eq!(words(other, vec![]), "unsupported HLS fMP4 encryption method M (keyformat=f)");
    assert_eq!(words(ctr, vec![]), "no key matches HLS video KID None");
    assert_eq!(words(HlsSegmentKey::Clear, vec![1]), "parse HLS video seq 8 failed");
    assert!(ensure_fmp4_key(&HlsSegmentKey::Clear).is_ok());
    let mut batch = Batch::new(vec![8]);
    batch.arrived(8, fetched(segment(8, 5, HlsSegmentKey::Clear), vec![]));
    assert!(matches!(
        c.advance(&mut batch, false),
        Fmp4Advance::Refused(8, Fmp4Error::VideoUnreadable)
    ));
    assert!(c.buffer.video.is_empty());
    assert!(c.take_published().is_empty());
    assert!(Fmp4Setup::read(&input(None), "hvc1", &[1], None, None).is_none());
}

const KID_URI: &str =
    "data:text/plain;base64,PEtJRD43MjRabTYvZjNreWZaOEZPSDJPVXlnPT08L0tJRD4=";
const KID: &str = "9b196eefdfaf4cde9f67c14e1f6394ca";

#[test]
fn keys_do_not_mix_in_one_segment() {
    let store = KeyStore::parse(&"05".repeat(16));
    let mut c = context(store);
    let ctr = |uri: Option<String>| HlsSegmentKey::SampleAesCtr { key_format: "f".into(), uri };
    let first = segment(1, 2, ctr(Some(KID_URI.into())));
    assert_eq!(hls_key_kid(&first.key).as_deref(), Some(KID));
    assert!(c.process_fmp4_segment(&fetched(first, picture(0, 20))).is_ok());
    assert_eq!(c.last_kids.video.as_deref(), Some(KID));
    c.set_track(Fmp4TrackKind::Video, Some("http://h/other".into()), None);
    assert_eq!(c.video.map_uri.as_deref(), Some("http://h/other"));
    c.last_kids.video = Some("00".repeat(16));
    let second = segment(2, 2, ctr(Some(KID_URI.into())));
    assert!(c.process_fmp4_segment(&fetched(second, picture(20, 20))).is_ok());
    assert_eq!(c.take_published().len(), 1);
    c.mark_boundary();
    assert_eq!(c.take_published().len(), 1);
    c.flush();
    assert!(c.take_published().is_empty());
    let mut p = playlist(1, 1, 2);
    p.segments[0].key = ctr(Some(KID_URI.into()));
    assert_eq!(playlist_advertised_kids(&p), [KID]);
    let job = Fmp4Job {
        sequence: 1,
        video: segment(1, 2, ctr(Some(KID_URI.into()))),
        audio: None,
        subtitle: None,
    };
    assert_eq!(c.kids_of_jobs(&[job]), [KID]);
    assert_eq!(map_of(&Some(p)), Some("http://h/init"));
    assert_eq!(map_of(&None), None);
}

#[test]
fn ciphers_follow_init_and_playlist() {
    let info = SampleInfo {
        data_range: (0, 16),
        duration: 0,
        cts_offset: 0,
        iv: vec![],
        subsamples: vec![],
    };
    let shown = |d: Decryptor| {
        let mut b = vec![0u8; 16];
        d.decrypt_sample(&mut b, &info);
        b
    };
    let tenc = TrackEncryption {
        is_protected: true,
        iv_size: 0,
        scheme: Some("cbcs".into()),
        crypt_byte_block: 1,
        skip_byte_block: 9,
        kid: KID.into(),
        constant_iv: Some([2; 16]),
    };
    assert_eq!(
        shown(build_fmp4_decryptor([1; 16], Some(&tenc), Some([3; 16]), false)),
        shown(Decryptor::cbcs_with_constant_iv([1; 16], [2; 16], 1, 9))
    );
    assert_eq!(
        shown(build_fmp4_decryptor([1; 16], None, Some([3; 16]), true)),
        shown(Decryptor::cbcs_with_constant_iv([1; 16], [3; 16], 0, 0))
    );
    assert_eq!(
        shown(build_fmp4_decryptor([1; 16], None, Some([3; 16]), false)),
        shown(Decryptor::with_constant_iv([1; 16], [3; 16]))
    );
    let key = HlsSegmentKey::SampleAes { key_format: "f".into(), uri: None, iv: Some([4; 16]) };
    assert_eq!(hls_key_iv(&key), Some([4; 16]));
    let setup = TrackSetup { map_uri: None, tenc: Some(tenc) };
    let seg = segment(1, 1, HlsSegmentKey::Clear);
    assert_eq!(setup.segment_kid(&seg).as_deref(), Some(KID));
    let store = KeyStore::parse(&format!("{KID}:{}", "01".repeat(16)));
    assert!(setup.decryptor_for_segment(&store, &seg, Fmp4TrackKind::Audio).unwrap().is_some());
    match setup.decryptor_for_segment(&KeyStore::default(), &seg, Fmp4TrackKind::Audio) {
        Err(e) => {
            assert_eq!(e.message(1), format!("no key matches HLS audio KID Some(\"{KID}\")"))
        }
        Ok(_) => panic!("no key was given"),
    }
    assert!(TrackSetup::none()
        .decryptor_for_segment(&store, &seg, Fmp4TrackKind::Subtitle)
        .unwrap()
        .is_none());
    assert_eq!(Fmp4TrackKind::Subtitle.label(), "subtitle");
}

#[test]
fn rounds_end_wait_or_go_on() {
    let mut run = HlsRun::start(input(None), 0, 1);
    assert_eq!(run.cursor.next_sequence, 10);
    assert_eq!(run.end_round(None, 0), After::Wait(1_000_000_000));
    let lost = Progress { next_sequence: 12, skipped: true };
    assert_eq!(run.end_round(Some(lost), 0), After::Again);
    assert_eq!(run.cursor.seen, ["http://h/10", "http://h/11"]);
    let last = Progress { next_sequence: 14, skipped: true };
    assert_eq!(run.end_round(Some(last), 2_000_000_000), After::Wait(250_000_000));
    assert!(!run.refresh(input(None)));
    assert_eq!(run.cursor.next_sequence, 14);
    let mut fresh = input(None);
    fresh.video = playlist(3, 2, 2);
    fresh.video.end_list = true;
    assert!(run.refresh(fresh));
    assert_eq!((run.cursor.next_sequence, run.cursor.seen.len()), (3, 0));
    assert_eq!(run.end_round(None, 0), After::Finished);
}

#[test]
fn a_live_batch_goes_on_behind_a_failure() {
    let mut b: Batch<u8> = Batch::new(vec![4, 7]);
    b.arrived(4, 1);
    assert_eq!(past_failure(&b, false), None);
    let on = past_failure(&b, true).unwrap();
    assert_eq!((on.next_sequence, on.skipped), (7, true));
    assert_eq!(at_end(&b), Progress { next_sequence: 4, skipped: false });
}

#[test]
fn another_init_segment_is_noticed() {
    let c = context(KeyStore::default());
    let mut fresh = input(None);
    for track in [Fmp4TrackKind::Video, Fmp4TrackKind::Audio, Fmp4TrackKind::Subtitle] {
        assert!(!map_changed(&c, &fresh, track));
    }
    fresh.video.map_uri = Some("http://h/next".into());
    fresh.audio = Some(playlist(1, 1, 2));
    assert!(map_changed(&c, &fresh, Fmp4TrackKind::Video));
    assert!(map_changed(&c, &fresh, Fmp4TrackKind::Audio));
}
