//! The timescale of a track, from its `mdhd`.

use vstd::prelude::*;

use super::boxes;
use crate::wire;

verus! {

/// `mdhd`
pub const MDHD: [u8; 4] = [0x6d, 0x64, 0x68, 0x64];

/// What an `mdhd` payload of version 0 or 1 states.
pub open spec fn mdhd_timescale(d: Seq<u8>) -> Option<u32> {
    if d.len() > 0 && d[0] == 0 && d.len() >= 16 {
        Some(wire::be32_at(d, 12) as u32)
    } else if d.len() > 0 && d[0] == 1 && d.len() >= 24 {
        Some(wire::be32_at(d, 20) as u32)
    } else {
        None
    }
}

/// What the first `mdhd` of an init segment states.
pub open spec fn timescale_in_init(init: Seq<u8>) -> Option<u32> {
    match boxes::located(init, MDHD@) {
        Some(p) => mdhd_timescale(p),
        None => None,
    }
}

/// Reads the timescale from the first `mdhd` of an init segment.
pub fn timescale_from_init(init: &[u8]) -> (r: Option<u32>)
    ensures
        r == timescale_in_init(init@),
{
    match boxes::locate(init, &MDHD) {
        Some(p) => parse_mdhd_timescale(p),
        None => None,
    }
}

/// Reads the timescale from an `mdhd` payload.
pub fn parse_mdhd_timescale(payload: &[u8]) -> (r: Option<u32>)
    ensures
        r == mdhd_timescale(payload@),
{
    if payload.len() == 0 {
        return None;
    }
    let offset: usize = if payload[0] == 0 {
        12
    } else if payload[0] == 1 {
        20
    } else {
        return None;
    };
    if payload.len() < offset + 4 {
        return None;
    }
    Some(wire::read_be32(payload, offset))
}

} // verus!
