//! The Dolby Vision configuration of `dvcC` and `dvvC`.
//!
//! ```text
//! byte 0: version, major
//! byte 1: version, minor
//! byte 2: profile (7 bits), level (highest bit)
//! byte 3: level (5 bits), RPU, EL, BL (one bit each)
//! byte 4: base layer compatibility (4 bits), reserved
//! ```

use vstd::prelude::*;

use super::boxes;
use crate::text;

verus! {

/// `dvcC`
pub const DVCC: [u8; 4] = [0x64, 0x76, 0x63, 0x43];

/// `dvvC`
pub const DVVC: [u8; 4] = [0x64, 0x76, 0x76, 0x43];

#[derive(Debug, Clone, Copy, PartialEq, Eq, Structural)]
pub struct DoviConfig {
    pub version_major: u8,
    pub version_minor: u8,
    pub profile: u8,
    pub level: u8,
    pub rpu_present: bool,
    pub el_present: bool,
    pub bl_present: bool,
    pub bl_compatibility_id: u8,
}

/// What five bytes of a `dvcC` payload state.
pub open spec fn dovi_of(p: Seq<u8>) -> DoviConfig {
    DoviConfig {
        version_major: p[0],
        version_minor: p[1],
        profile: (p[2] / 2) as u8,
        level: (p[2] % 2 * 32 + p[3] / 8) as u8,
        rpu_present: p[3] / 4 % 2 == 1,
        el_present: p[3] / 2 % 2 == 1,
        bl_present: p[3] % 2 == 1,
        bl_compatibility_id: (p[4] / 16) as u8,
    }
}

/// What a payload states, if it is long enough.
pub open spec fn parsed(p: Seq<u8>) -> Option<DoviConfig> {
    if p.len() < 5 {
        None
    } else {
        Some(dovi_of(p))
    }
}

/// What an init segment states: `dvcC` goes before `dvvC`.
pub open spec fn dovi_in_init(init: Seq<u8>) -> Option<DoviConfig> {
    match boxes::located(init, DVCC@) {
        Some(p) => parsed(p),
        None => match boxes::located(init, DVVC@) {
            Some(p) => parsed(p),
            None => None,
        },
    }
}

impl DoviConfig {
    /// Whether every field fits the bits that it is stored in.
    pub open spec fn fits(&self) -> bool {
        &&& self.profile < 128
        &&& self.level < 64
        &&& self.bl_compatibility_id < 16
    }

    /// Reads the payload of `dvcC` or `dvvC`.
    pub fn parse(payload: &[u8]) -> (r: Option<Self>)
        ensures
            r == parsed(payload@),
    {
        if payload.len() < 5 {
            return None;
        }
        Some(
            DoviConfig {
                version_major: payload[0],
                version_minor: payload[1],
                profile: payload[2] / 2,
                level: payload[2] % 2 * 32 + payload[3] / 8,
                rpu_present: payload[3] / 4 % 2 == 1,
                el_present: payload[3] / 2 % 2 == 1,
                bl_present: payload[3] % 2 == 1,
                bl_compatibility_id: payload[4] / 16,
            },
        )
    }

    /// Reads the configuration from an init segment.
    pub fn find_in_init(init: &[u8]) -> (r: Option<Self>)
        ensures
            r == dovi_in_init(init@),
    {
        if let Some(p) = boxes::locate(init, &DVCC) {
            return Self::parse(p);
        }
        if let Some(p) = boxes::locate(init, &DVVC) {
            return Self::parse(p);
        }
        None
    }

    /// The video codec of an HLS `CODECS` attribute, such as `dvh1.05.06`.
    pub fn codec_string(&self) -> (r: String)
        ensures
            r@ == "dvh1."@ + text::decimal2(self.profile as int) + "."@ + text::decimal2(
                self.level as int,
            ),
    {
        let mut out: String = String::new();
        text::push_str(&mut out, "dvh1.");
        text::push_decimal2(&mut out, self.profile as u64);
        text::push_str(&mut out, ".");
        text::push_decimal2(&mut out, self.level as u64);
        assert(Seq::<char>::empty() + "dvh1."@ =~= "dvh1."@);
        out
    }
}

} // verus!
