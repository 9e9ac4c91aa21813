//! The keys of the tracks of a DASH source.

use vstd::prelude::*;

use super::aggregate;
use super::grouping;
use super::KeyMode;
use crate::crypto::cenc::{Decryptor, DecryptorView, EncryptionMode, KeyStore, KeyStoreView};
use crate::mp4::tenc::TrackEncryptionView;
use crate::mp4::TrackEncryption;
use crate::mpd::parser;
use crate::mpd::parser::RepresentationView;
use crate::mpd::Representation;
use crate::text;

verus! {

/// Whether two known identifiers differ.
pub open spec fn differ(a: Option<Seq<char>>, b: Option<Seq<char>>) -> bool {
    a is Some && b is Some && a->0 != b->0
}

/// Whether a track goes on with another key.
pub fn key_changed(previous: &Option<String>, current: &Option<String>) -> (r: bool)
    ensures
        r == differ(text::opt_text(*previous), text::opt_text(*current)),
{
    match (previous, current) {
        (Some(a), Some(b)) => !text::same(a.as_str(), b.as_str()),
        _ => false,
    }
}

/// What an optional `tenc` states.
pub open spec fn ref_tenc(t: Option<&TrackEncryption>) -> Option<TrackEncryptionView> {
    match t {
        Some(x) => Some(x@),
        None => None,
    }
}

/// The identifier that an optional `tenc` states.
pub open spec fn tenc_kid(t: Option<TrackEncryptionView>) -> Option<Seq<char>> {
    match t {
        Some(x) => Some(x.kid),
        None => None,
    }
}

/// The identifiers that the manifest states for a track.
pub open spec fn manifest_kids(rep: Option<RepresentationView>) -> Seq<Seq<char>> {
    match rep {
        Some(r) => r.manifest_kids,
        None => Seq::empty(),
    }
}

/// The identifier of a track: where keys are fetched, the manifest goes before the init segment,
/// and otherwise behind it.
pub open spec fn kid_of(
    mode: KeyMode,
    tenc: Option<TrackEncryptionView>,
    rep: Option<RepresentationView>,
) -> Option<Seq<char>> {
    let m = manifest_kids(rep);
    let manifest = if m.len() > 0 {
        Some(m[0])
    } else {
        None
    };
    let stated = tenc_kid(tenc);
    match mode {
        KeyMode::Dynamic => if manifest is Some {
            manifest
        } else {
            stated
        },
        KeyMode::Static => if stated is Some {
            stated
        } else {
            manifest
        },
    }
}

/// The identifier of a track.
pub fn effective_mpd_kid(
    mode: KeyMode,
    tenc: Option<&TrackEncryption>,
    rep: Option<&Representation>,
) -> (r: Option<String>)
    ensures
        text::opt_text(r) == kid_of(mode, ref_tenc(tenc), grouping::opt_rep(rep)),
{
    let manifest: Option<String> = match rep {
        Some(x) => {
            assert(x@.manifest_kids.len() == x.manifest_kids@.len());
            if x.manifest_kids.len() > 0 {
                assert(x@.manifest_kids[0] == x.manifest_kids@[0]@);
                Some(text::clone_text(x.manifest_kids[0].as_str()))
            } else {
                None
            }
        },
        None => None,
    };
    let stated: Option<String> = match tenc {
        Some(t) => Some(text::clone_text(t.kid.as_str())),
        None => None,
    };
    match mode {
        KeyMode::Dynamic => match manifest {
            Some(k) => Some(k),
            None => stated,
        },
        KeyMode::Static => match stated {
            Some(k) => Some(k),
            None => manifest,
        },
    }
}

/// The identifiers that a track needs.
pub open spec fn needed_by(
    mode: KeyMode,
    rep: RepresentationView,
    tenc: Option<TrackEncryptionView>,
) -> Seq<Seq<char>> {
    let stated = match tenc {
        Some(t) => seq![t.kid],
        None => Seq::empty(),
    };
    match mode {
        KeyMode::Dynamic => if rep.manifest_kids.len() == 0 {
            stated
        } else {
            rep.manifest_kids
        },
        KeyMode::Static => if tenc is Some {
            stated
        } else {
            rep.manifest_kids
        },
    }
}

/// The identifiers so far with those that a track needs.
pub open spec fn with_needed(
    kids: Seq<Seq<char>>,
    mode: KeyMode,
    rep: Option<RepresentationView>,
    tenc: Option<TrackEncryptionView>,
) -> Seq<Seq<char>> {
    match rep {
        Some(r) => parser::united(kids, needed_by(mode, r, tenc)),
        None => kids,
    }
}

fn extend_required_mpd_rep_kids(
    target: &mut Vec<String>,
    mode: KeyMode,
    rep: &Representation,
    tenc: Option<&TrackEncryption>,
)
    ensures
        text::texts(final(target)@) == with_needed(
            text::texts(old(target)@),
            mode,
            Some(rep@),
            ref_tenc(tenc),
        ),
{
    let mut stated: Vec<String> = Vec::new();
    if let Some(t) = tenc {
        stated.push(text::clone_text(t.kid.as_str()));
        assert(text::texts(stated@) =~= seq![t.kid@]);
    } else {
        assert(text::texts(stated@) =~= Seq::<Seq<char>>::empty());
    }
    assert(rep@.manifest_kids.len() == rep.manifest_kids@.len());
    let by_init: bool = match mode {
        KeyMode::Dynamic => rep.manifest_kids.len() == 0,
        KeyMode::Static => tenc.is_some(),
    };
    if by_init {
        parser::extend_unique(target, stated.as_slice());
    } else {
        parser::extend_unique(target, rep.manifest_kids.as_slice());
    }
}

/// The identifiers that the tracks need: of the video, of the audio, of the subtitles.
pub open spec fn kids_needed(
    mode: KeyMode,
    video: RepresentationView,
    vtenc: Option<TrackEncryptionView>,
    audio: Option<RepresentationView>,
    atenc: Option<TrackEncryptionView>,
    subtitle: Option<RepresentationView>,
    stenc: Option<TrackEncryptionView>,
) -> Seq<Seq<char>> {
    with_needed(
        with_needed(
            with_needed(Seq::empty(), mode, Some(video), vtenc),
            mode,
            audio,
            atenc,
        ),
        mode,
        subtitle,
        stenc,
    )
}

/// The identifiers that the tracks need, each once.
pub fn required_mpd_kids(
    mode: KeyMode,
    video: &Representation,
    vtenc: Option<&TrackEncryption>,
    audio: Option<&Representation>,
    atenc: Option<&TrackEncryption>,
    subtitle: Option<&Representation>,
    stenc: Option<&TrackEncryption>,
) -> (r: Vec<String>)
    ensures
        text::texts(r@) == kids_needed(
            mode,
            video@,
            ref_tenc(vtenc),
            grouping::opt_rep(audio),
            ref_tenc(atenc),
            grouping::opt_rep(subtitle),
            ref_tenc(stenc),
        ),
{
    let mut kids: Vec<String> = Vec::new();
    assert(text::texts(kids@) =~= Seq::<Seq<char>>::empty());
    extend_required_mpd_rep_kids(&mut kids, mode, video, vtenc);
    if let Some(a) = audio {
        extend_required_mpd_rep_kids(&mut kids, mode, a, atenc);
    }
    if let Some(s) = subtitle {
        extend_required_mpd_rep_kids(&mut kids, mode, s, stenc);
    }
    kids
}

/// The key for a track: that of its identifier, or else one that goes with any.
pub open spec fn picked(store: KeyStoreView, kid: Option<Seq<char>>) -> Option<Seq<u8>> {
    match kid {
        Some(k) if store.key_for(k) is Some => store.key_for(k),
        _ => store.key_for(""@),
    }
}

/// The key for a track.
pub fn pick_key(store: &KeyStore, kid: Option<&str>) -> (r: Option<[u8; 16]>)
    ensures
        match r {
            None => picked(store@, text::ref_text(kid)) is None,
            Some(k) => picked(store@, text::ref_text(kid)) == Some(k@),
        },
{
    if let Some(k) = kid {
        if let Some(key) = store.get(k) {
            return Some(key);
        }
    }
    store.get("")
}

/// A decryptor in counter mode.
pub open spec fn counter_mode(key: Seq<u8>, iv: Option<Seq<u8>>) -> DecryptorView {
    DecryptorView { key, constant_iv: iv, mode: EncryptionMode::CencCtr }
}

/// What opens the video: without a key it has to be clear.
pub fn build_mpd_video_decryptor(
    store: &KeyStore,
    tenc: Option<&TrackEncryption>,
    kid: Option<&str>,
) -> (r: Result<Option<Decryptor>, NoVideoKey>)
    ensures
        ({
            let key = picked(store@, text::ref_text(kid));
            match r {
                Ok(Some(d)) => key is Some && d@ == counter_mode(key->0, None),
                Ok(None) => key is None && tenc is None,
                Err(e) => key is None && tenc is Some && text::opt_text(e.kid) == text::ref_text(
                    kid,
                ),
            }
        }),
{
    match pick_key(store, kid) {
        Some(k) => {
            let d = Decryptor::new(k);
            assert(d@ =~= counter_mode(k@, None));
            Ok(Some(d))
        },
        None => {
            if tenc.is_none() {
                Ok(None)
            } else {
                Err(
                    NoVideoKey {
                        kid: match kid {
                            Some(k) => Some(text::clone_text(k)),
                            None => None,
                        },
                    },
                )
            }
        },
    }
}

/// There is no key for the video.
#[derive(Debug)]
pub struct NoVideoKey {
    pub kid: Option<String>,
}

/// What opens audio or subtitles, if there is a key: the IV of the track goes with it.
pub open spec fn side_opener(
    store: KeyStoreView,
    tenc: Option<TrackEncryptionView>,
    kid: Option<Seq<char>>,
) -> Option<DecryptorView> {
    match picked(store, kid) {
        Some(key) => Some(
            counter_mode(
                key,
                match tenc {
                    Some(t) => t.constant_iv,
                    None => None,
                },
            ),
        ),
        None => None,
    }
}

/// What opens audio or subtitles. Without a key they are taken as they are.
pub fn build_mpd_audio_decryptor(
    store: &KeyStore,
    tenc: Option<&TrackEncryption>,
    kid: Option<&str>,
) -> (r: Option<Decryptor>)
    ensures
        aggregate::opener(r) == side_opener(store@, ref_tenc(tenc), text::ref_text(kid)),
{
    match pick_key(store, kid) {
        Some(k) => {
            let iv: Option<[u8; 16]> = match tenc {
                Some(t) => t.constant_iv,
                None => None,
            };
            let d: Decryptor = match iv {
                Some(x) => Decryptor::with_constant_iv(k, x),
                None => Decryptor::new(k),
            };
            assert(d@ =~= side_opener(store@, ref_tenc(tenc), text::ref_text(kid))->0);
            Some(d)
        },
        None => None,
    }
}

/// What opens the subtitles: as with audio.
pub fn build_mpd_subtitle_decryptor(
    store: &KeyStore,
    tenc: Option<&TrackEncryption>,
    kid: Option<&str>,
) -> (r: Option<Decryptor>)
    ensures
        aggregate::opener(r) == side_opener(store@, ref_tenc(tenc), text::ref_text(kid)),
{
    build_mpd_audio_decryptor(store, tenc, kid)
}

/// Where keys are fetched, the first identifier of the manifest goes before that of the init
/// segment, and otherwise that of the init segment; either is taken where the other is missing.
pub proof fn law_manifest_or_init_states_kid(
    tenc: TrackEncryptionView,
    rep: RepresentationView,
)
    requires
        rep.manifest_kids.len() > 0,
    ensures
        kid_of(KeyMode::Dynamic, Some(tenc), Some(rep)) == Some(rep.manifest_kids[0]),
        kid_of(KeyMode::Static, Some(tenc), Some(rep)) == Some(tenc.kid),
        kid_of(KeyMode::Static, None, Some(rep)) == Some(rep.manifest_kids[0]),
        kid_of(KeyMode::Dynamic, Some(tenc), None) == Some(tenc.kid),
        kid_of(KeyMode::Dynamic, None, None) is None,
        kid_of(KeyMode::Static, None, None) is None,
{
}

/// The identifier that a track is opened with is among those that it needs, and a track that needs
/// none has none.
pub proof fn law_kid_of_track_is_needed(
    mode: KeyMode,
    tenc: Option<TrackEncryptionView>,
    rep: RepresentationView,
)
    ensures
        kid_of(mode, tenc, Some(rep)) matches Some(k) ==> needed_by(mode, rep, tenc).contains(k),
        kid_of(mode, tenc, Some(rep)) is None ==> needed_by(mode, rep, tenc).len() == 0,
{
    if let Some(k) = kid_of(mode, tenc, Some(rep)) {
        assert(needed_by(mode, rep, tenc)[0] == k);
    }
}

} // verus!
