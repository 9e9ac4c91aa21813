//! The encryption of a track, from its `tenc` and `schm`.
//!
//! ```text
//! version (1), flags (3), reserved (1), reserved or crypt and skip blocks (1)
//! isProtected (1), per-sample IV size (1), KID (16)
//! constant IV size (1), constant IV, where the per-sample IV size is 0
//! ```

use vstd::prelude::*;

use super::boxes;
use crate::text;

verus! {

/// `tenc`
pub const TENC: [u8; 4] = [0x74, 0x65, 0x6e, 0x63];

/// `schm`
pub const SCHM: [u8; 4] = [0x73, 0x63, 0x68, 0x6d];

#[derive(Debug, Clone)]
pub struct TrackEncryption {
    pub is_protected: bool,
    pub iv_size: u8,
    /// The scheme of `schm`, such as `cenc` or `cbcs`.
    pub scheme: Option<String>,
    /// How many blocks of each pattern are encrypted.
    pub crypt_byte_block: u8,
    /// How many blocks of each pattern are clear.
    pub skip_byte_block: u8,
    /// The key identifier in 32 lower-case hexadecimal digits.
    pub kid: String,
    /// The IV of every sample, where samples carry none.
    pub constant_iv: Option<[u8; 16]>,
}

/// What a value of [`TrackEncryption`] holds.
#[verifier::ext_equal]
pub struct TrackEncryptionView {
    pub is_protected: bool,
    pub iv_size: u8,
    pub scheme: Option<Seq<char>>,
    pub crypt_byte_block: u8,
    pub skip_byte_block: u8,
    pub kid: Seq<char>,
    pub constant_iv: Option<Seq<u8>>,
}

/// The text inside an optional string.
pub open spec fn text_of(s: Option<String>) -> Option<Seq<char>> {
    match s {
        Some(t) => Some(t@),
        None => None,
    }
}

/// The bytes inside an optional block.
pub open spec fn bytes_of(b: Option<[u8; 16]>) -> Option<Seq<u8>> {
    match b {
        Some(x) => Some(x@),
        None => None,
    }
}

impl View for TrackEncryption {
    type V = TrackEncryptionView;

    open spec fn view(&self) -> TrackEncryptionView {
        TrackEncryptionView {
            is_protected: self.is_protected,
            iv_size: self.iv_size,
            scheme: text_of(self.scheme),
            crypt_byte_block: self.crypt_byte_block,
            skip_byte_block: self.skip_byte_block,
            kid: self.kid@,
            constant_iv: bytes_of(self.constant_iv),
        }
    }
}

/// What a `tenc` payload states.
pub open spec fn tenc_of(d: Seq<u8>) -> Option<TrackEncryptionView> {
    if d.len() < 24 {
        None
    } else {
        let pattern: int = if d[0] > 0 {
            d[5] as int
        } else {
            0
        };
        Some(
            TrackEncryptionView {
                is_protected: d[6] != 0,
                iv_size: d[7],
                scheme: None,
                crypt_byte_block: (pattern / 16) as u8,
                skip_byte_block: (pattern % 16) as u8,
                kid: text::hex_lower(d.subrange(8, 24)),
                constant_iv: if d[7] == 0 && d.len() >= 41 && d[24] == 16 {
                    Some(d.subrange(25, 41))
                } else {
                    None
                },
            },
        )
    }
}

/// The scheme that the `schm` of an init segment states.
pub open spec fn scheme_in_init(init: Seq<u8>) -> Option<Seq<char>> {
    match boxes::located(init, SCHM@) {
        Some(p) => if p.len() < 8 {
            None
        } else {
            Some(text::lossy_text(p.subrange(4, 8)))
        },
        None => None,
    }
}

/// What the `tenc` and `schm` of an init segment state.
pub open spec fn tenc_in_init(init: Seq<u8>) -> Option<TrackEncryptionView> {
    match boxes::located(init, TENC@) {
        Some(p) => match tenc_of(p) {
            Some(t) => Some(TrackEncryptionView { scheme: scheme_in_init(init), ..t }),
            None => None,
        },
        None => None,
    }
}

/// The scheme that a `schm` payload states, if there is one.
pub open spec fn scheme_of(schm: Option<Seq<u8>>) -> Option<Seq<char>> {
    match schm {
        Some(q) => if q.len() < 8 {
            None
        } else {
            Some(text::lossy_text(q.subrange(4, 8)))
        },
        None => None,
    }
}

/// `cbcs`
pub open spec fn cbcs_bytes() -> Seq<u8> {
    seq![0x63u8, 0x62u8, 0x63u8, 0x73u8]
}

/// An init segment with one `tenc` and at most one `schm` states what the `tenc` states, with the
/// scheme of the `schm`. The scheme is `cbcs` where those are the bytes of the `schm`, and only
/// there.
pub proof fn law_init_states_track_encryption(
    init: Seq<u8>,
    tenc: Seq<u8>,
    schm: Option<Seq<u8>>,
)
    requires
        boxes::holds_one(init, TENC@, tenc),
        match schm {
            Some(q) => boxes::holds_one(init, SCHM@, q),
            None => boxes::holds_none(init, SCHM@),
        },
    ensures
        tenc_in_init(init) is Some <==> tenc.len() >= 24,
        tenc_in_init(init) matches Some(t) ==> tenc_of(tenc) == Some(
            TrackEncryptionView { scheme: None, ..t },
        ) && t.scheme == scheme_of(schm),
        tenc_in_init(init) matches Some(t) ==> (t.scheme is Some <==> (schm matches Some(q)
            && q.len() >= 8)),
        tenc_in_init(init) matches Some(t) ==> (t.scheme == Some("cbcs"@) <==> (schm matches Some(q)
            && q.len() >= 8 && q.subrange(4, 8) == cbcs_bytes())),
{
    boxes::law_only_box_is_located(init, TENC@, tenc);
    boxes::law_only_box_is_located(
        init,
        SCHM@,
        match schm {
            Some(q) => q,
            None => Seq::empty(),
        },
    );
    if let Some(q) = schm {
        if q.len() >= 8 {
            lemma_cbcs(q.subrange(4, 8));
        }
    }
}

proof fn lemma_cbcs(b: Seq<u8>)
    ensures
        text::lossy_text(b) == "cbcs"@ <==> b == cbcs_bytes(),
{
    reveal_strlit("cbcs");
    let t = "cbcs"@;
    let c = cbcs_bytes();
    assert(text::ascii_text(c) =~= t);
    if b == c {
        text::lemma_ascii_is_read(c);
    }
    if text::lossy_text(b) == t {
        text::lemma_ascii_is_read_from(b, t);
        assert forall|i: int| 0 <= i < 4 implies b[i] == c[i] by {
            assert(text::ascii_text(b)[i] == b[i] as char);
        }
        assert(b =~= c);
    }
}

/// The 16 bytes at `p`.
pub fn block_at(d: &[u8], p: usize) -> (r: [u8; 16])
    requires
        p + 16 <= d.len(),
    ensures
        r@ == d@.subrange(p as int, p + 16),
{
    let mut r: [u8; 16] = [0u8; 16];
    for i in 0..16usize
        invariant
            p + 16 <= d.len(),
            r@.len() == 16,
            forall|j: int| 0 <= j < i ==> r@[j] == d@[p + j],
    {
        r[i] = d[p + i];
    }
    assert(r@ =~= d@.subrange(p as int, p + 16));
    r
}

impl TrackEncryption {
    /// Reads a `tenc` payload; the scheme is not part of it.
    pub fn parse(payload: &[u8]) -> (r: Option<Self>)
        ensures
            match r {
                None => tenc_of(payload@) is None,
                Some(t) => tenc_of(payload@) == Some(t@),
            },
    {
        if payload.len() < 24 {
            return None;
        }
        let pattern: u8 = if payload[0] > 0 {
            payload[5]
        } else {
            0
        };
        let iv_size: u8 = payload[7];
        let kid: String = text::to_hex(vstd::slice::slice_subrange(payload, 8, 24));
        let constant_iv: Option<[u8; 16]> = if iv_size == 0 && payload.len() >= 41 && payload[24]
            == 16 {
            Some(block_at(payload, 25))
        } else {
            None
        };
        Some(
            TrackEncryption {
                is_protected: payload[6] != 0,
                iv_size,
                scheme: None,
                crypt_byte_block: pattern / 16,
                skip_byte_block: pattern % 16,
                kid,
                constant_iv,
            },
        )
    }

    /// Reads the `tenc` and the scheme of an init segment.
    pub fn find_in_init(init: &[u8]) -> (r: Option<Self>)
        ensures
            match r {
                None => tenc_in_init(init@) is None,
                Some(t) => tenc_in_init(init@) == Some(t@),
            },
    {
        match boxes::locate(init, &TENC) {
            None => None,
            Some(p) => match Self::parse(p) {
                None => None,
                Some(mut tenc) => {
                    tenc.scheme = find_scheme_type(init);
                    Some(tenc)
                },
            },
        }
    }

    /// Whether the scheme is `cbcs`.
    pub fn is_cbcs(&self) -> (r: bool)
        ensures
            r == (self@.scheme == Some("cbcs"@)),
    {
        match &self.scheme {
            Some(s) => text::same(s.as_str(), "cbcs"),
            None => false,
        }
    }
}

fn find_scheme_type(init: &[u8]) -> (r: Option<String>)
    ensures
        text_of(r) == scheme_in_init(init@),
{
    match boxes::locate(init, &SCHM) {
        None => None,
        Some(p) => {
            if p.len() < 8 {
                return None;
            }
            Some(text::from_utf8_lossy(vstd::slice::slice_subrange(p, 4, 8)))
        },
    }
}

} // verus!
