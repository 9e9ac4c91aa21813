//! The `avcC` record, which carries the parameter sets of H.264.
//!
//! ```text
//! 5 bytes of fixed header
//! numOfSPS (5 bits of 1), each: length (2), bytes
//! numOfPPS (1), each: length (2), bytes
//! ```

use vstd::prelude::*;

use super::boxes;
use super::hvcc;
use super::hvcc::ParamSets;

verus! {

/// `avcC`
pub const AVCC: [u8; 4] = [0x61, 0x76, 0x63, 0x43];

/// What an `avcC` payload states. A record that is cut off states what comes before the cut.
pub open spec fn avcc_of(d: Seq<u8>) -> Option<hvcc::ParamSetsView> {
    if d.len() < 6 {
        None
    } else {
        let sps = hvcc::nal_run(d, 6, (d[5] as int % 32) as nat);
        let pps = if sps.whole && sps.next < d.len() {
            hvcc::nal_run(d, sps.next + 1, d[sps.next] as nat).nals
        } else {
            Seq::empty()
        };
        Some(hvcc::ParamSetsView { vps: Seq::empty(), sps: sps.nals, pps })
    }
}

/// What the `avcC` of an init segment states.
pub open spec fn avcc_in_init(init: Seq<u8>) -> Option<hvcc::ParamSetsView> {
    match boxes::located(init, AVCC@) {
        Some(p) => avcc_of(p),
        None => None,
    }
}

/// Reads an `avcC` payload.
pub fn parse_avcc(payload: &[u8]) -> (r: Option<ParamSets>)
    ensures
        match r {
            None => avcc_of(payload@) is None,
            Some(ps) => avcc_of(payload@) == Some(ps@),
        },
{
    let len: usize = payload.len();
    if len < 6 {
        return None;
    }
    let mut ps: ParamSets = ParamSets::default();
    let ghost all = avcc_of(payload@)->0;
    let num_sps: usize = (payload[5] % 32) as usize;
    let (next, whole): (usize, bool) = hvcc::read_nal_run(payload, 6, num_sps, &mut ps.sps);
    assert(ps@.sps =~= all.sps);
    if whole && next < len {
        let num_pps: usize = payload[next] as usize;
        let _: (usize, bool) = hvcc::read_nal_run(payload, next + 1, num_pps, &mut ps.pps);
        assert(ps@.pps =~= all.pps);
    }
    assert(ps@ =~= all);
    Some(ps)
}

/// Reads the `avcC` of an init segment.
pub fn find_avcc_in_init(init: &[u8]) -> (r: Option<ParamSets>)
    ensures
        match r {
            None => avcc_in_init(init@) is None,
            Some(ps) => avcc_in_init(init@) == Some(ps@),
        },
{
    match boxes::locate(init, &AVCC) {
        Some(p) => parse_avcc(p),
        None => None,
    }
}

} // verus!
