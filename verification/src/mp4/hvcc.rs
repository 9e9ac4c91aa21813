//! Parameter sets, and the `hvcC` record that carries those of HEVC.
//!
//! ```text
//! 22 bytes of fixed header, numOfArrays (1)
//! each array: completeness and NAL type (1), numNalus (2),
//!   each NAL unit: length (2), bytes
//! ```

use vstd::prelude::*;

use super::boxes;
use crate::wire;

verus! {

/// `hvcC`
pub const HVCC: [u8; 4] = [0x68, 0x76, 0x63, 0x43];

/// A run of NAL units, each behind its length in two bytes.
pub struct NalRun {
    pub nals: Seq<Seq<u8>>,
    /// Where the run ends.
    pub next: int,
    /// Whether the run holds as many units as asked for.
    pub whole: bool,
}

/// The run of at most `n` NAL units at `p`; it stops before a unit that is cut off.
pub open spec fn nal_run(d: Seq<u8>, p: int, n: nat) -> NalRun
    decreases n,
{
    if n == 0 {
        NalRun { nals: Seq::empty(), next: p, whole: true }
    } else if p + 2 > d.len() || p + 2 + wire::be16_at(d, p) > d.len() {
        NalRun { nals: Seq::empty(), next: p, whole: false }
    } else {
        let end = p + 2 + wire::be16_at(d, p);
        let rest = nal_run(d, end, (n - 1) as nat);
        NalRun {
            nals: seq![d.subrange(p + 2, end)] + rest.nals,
            next: rest.next,
            whole: rest.whole,
        }
    }
}

/// The units of NAL type `t` in the at most `n` arrays at `p`. An array whose units are cut off
/// is the last.
pub open spec fn nals_of_type(d: Seq<u8>, p: int, n: nat, t: int) -> Seq<Seq<u8>>
    decreases n,
{
    if n == 0 || p + 3 > d.len() {
        Seq::empty()
    } else {
        let run = nal_run(d, p + 3, wire::be16_at(d, p + 1) as nat);
        let own = if d[p] as int % 64 == t {
            run.nals
        } else {
            Seq::empty()
        };
        if run.whole {
            own + nals_of_type(d, run.next, (n - 1) as nat, t)
        } else {
            own
        }
    }
}

/// Parameter sets as bare NAL units.
#[derive(Debug, Clone)]
pub struct ParamSets {
    pub vps: Vec<Vec<u8>>,
    pub sps: Vec<Vec<u8>>,
    pub pps: Vec<Vec<u8>>,
}

/// What a value of [`ParamSets`] holds.
#[verifier::ext_equal]
pub struct ParamSetsView {
    pub vps: Seq<Seq<u8>>,
    pub sps: Seq<Seq<u8>>,
    pub pps: Seq<Seq<u8>>,
}

impl ParamSetsView {
    pub open spec fn none() -> Self {
        ParamSetsView { vps: Seq::empty(), sps: Seq::empty(), pps: Seq::empty() }
    }

    /// VPS before SPS before PPS.
    pub open spec fn flat(self) -> Seq<Seq<u8>> {
        self.vps + self.sps + self.pps
    }
}

impl View for ParamSets {
    type V = ParamSetsView;

    open spec fn view(&self) -> ParamSetsView {
        ParamSetsView {
            vps: wire::views(self.vps@),
            sps: wire::views(self.sps@),
            pps: wire::views(self.pps@),
        }
    }
}

/// What an `hvcC` payload states.
pub open spec fn hvcc_of(d: Seq<u8>) -> Option<ParamSetsView> {
    if d.len() < 23 {
        None
    } else {
        let n = d[22] as nat;
        Some(
            ParamSetsView {
                vps: nals_of_type(d, 23, n, 32),
                sps: nals_of_type(d, 23, n, 33),
                pps: nals_of_type(d, 23, n, 34),
            },
        )
    }
}

/// What the `hvcC` of an init segment states.
pub open spec fn hvcc_in_init(init: Seq<u8>) -> Option<ParamSetsView> {
    match boxes::located(init, HVCC@) {
        Some(p) => hvcc_of(p),
        None => None,
    }
}

/// Appends the run of at most `n` NAL units at `p`; tells where it ends and whether it is whole.
pub fn read_nal_run(d: &[u8], p: usize, n: usize, out: &mut Vec<Vec<u8>>) -> (r: (usize, bool))
    requires
        p <= d.len(),
    ensures
        wire::views(final(out)@) == wire::views(old(out)@) + nal_run(d@, p as int, n as nat).nals,
        r.0 == nal_run(d@, p as int, n as nat).next,
        r.1 == nal_run(d@, p as int, n as nat).whole,
        r.0 <= d.len(),
{
    let len: usize = d.len();
    let mut at: usize = p;
    let mut left: usize = n;
    let ghost all = nal_run(d@, p as int, n as nat);
    assert(wire::views(out@) + all.nals =~= wire::views(old(out)@) + all.nals);
    while left > 0
        invariant
            at <= len,
            len == d@.len(),
            left <= n,
            all == nal_run(d@, p as int, n as nat),
            wire::views(out@) + nal_run(d@, at as int, left as nat).nals == wire::views(old(out)@)
                + all.nals,
            nal_run(d@, at as int, left as nat).next == all.next,
            nal_run(d@, at as int, left as nat).whole == all.whole,
        decreases left,
    {
        if len - at < 2 {
            assert(wire::views(out@) =~= wire::views(out@) + nal_run(
                d@,
                at as int,
                left as nat,
            ).nals);
            return (at, false);
        }
        let size: usize = wire::read_be16(d, at) as usize;
        if len - at - 2 < size {
            assert(wire::views(out@) =~= wire::views(out@) + nal_run(
                d@,
                at as int,
                left as nat,
            ).nals);
            return (at, false);
        }
        let end: usize = at + 2 + size;
        let nal: Vec<u8> = wire::copy(vstd::slice::slice_subrange(d, at + 2, end));
        let ghost before = out@;
        out.push(nal);
        proof {
            let rest = nal_run(d@, end as int, (left - 1) as nat).nals;
            assert(wire::views(out@) =~= wire::views(before).push(nal@));
            assert(wire::views(out@) + rest =~= wire::views(before) + (seq![nal@] + rest));
        }
        at = end;
        left = left - 1;
    }
    assert(wire::views(out@) =~= wire::views(out@) + nal_run(d@, at as int, 0).nals);
    (at, true)
}

impl Default for ParamSets {
    fn default() -> (r: Self)
        ensures
            r@ == ParamSetsView::none(),
    {
        let r = ParamSets { vps: Vec::new(), sps: Vec::new(), pps: Vec::new() };
        assert(r@ =~= ParamSetsView::none());
        r
    }
}

impl ParamSets {
    /// All sets in the order in which they are injected: VPS, SPS, PPS.
    pub fn flat(&self) -> (r: Vec<Vec<u8>>)
        ensures
            wire::views(r@) == self@.flat(),
    {
        let mut out: Vec<Vec<u8>> = Vec::new();
        wire::append_all(&mut out, self.vps.as_slice());
        wire::append_all(&mut out, self.sps.as_slice());
        wire::append_all(&mut out, self.pps.as_slice());
        assert(wire::views(out@) =~= self@.flat());
        out
    }

    pub fn is_empty(&self) -> (r: bool)
        ensures
            r == (self@ == ParamSetsView::none()),
    {
        let r: bool = self.vps.len() == 0 && self.sps.len() == 0 && self.pps.len() == 0;
        proof {
            let none = ParamSetsView::none();
            if r {
                assert(self@ =~= none);
            } else {
                assert(self@.vps.len() != 0 || self@.sps.len() != 0 || self@.pps.len() != 0);
                assert(none.vps.len() == 0 && none.sps.len() == 0 && none.pps.len() == 0);
            }
        }
        r
    }

    /// Reads an `hvcC` payload.
    pub fn parse_hvcc(payload: &[u8]) -> (r: Option<Self>)
        ensures
            match r {
                None => hvcc_of(payload@) is None,
                Some(ps) => hvcc_of(payload@) == Some(ps@),
            },
    {
        let len: usize = payload.len();
        if len < 23 {
            return None;
        }
        let mut ps: ParamSets = ParamSets::default();
        let mut p: usize = 23;
        let mut left: usize = payload[22] as usize;
        let ghost n = left as nat;
        let ghost all = hvcc_of(payload@)->0;
        assert(ps@.vps + nals_of_type(payload@, 23, n, 32) =~= all.vps);
        assert(ps@.sps + nals_of_type(payload@, 23, n, 33) =~= all.sps);
        assert(ps@.pps + nals_of_type(payload@, 23, n, 34) =~= all.pps);
        while left > 0 && len - p >= 3
            invariant
                p <= len,
                len == payload@.len(),
                hvcc_of(payload@) == Some(all),
                ps@.vps + nals_of_type(payload@, p as int, left as nat, 32) == all.vps,
                ps@.sps + nals_of_type(payload@, p as int, left as nat, 33) == all.sps,
                ps@.pps + nals_of_type(payload@, p as int, left as nat, 34) == all.pps,
            decreases left,
        {
            let nal_type: u8 = payload[p] % 64;
            let count: usize = wire::read_be16(payload, p + 1) as usize;
            let ghost run = nal_run(payload@, p + 3, count as nat);
            let ghost before = ps@;
            let mut nals: Vec<Vec<u8>> = Vec::new();
            let (next, whole): (usize, bool) = read_nal_run(payload, p + 3, count, &mut nals);
            assert(wire::views(nals@) =~= run.nals);
            if nal_type == 32 {
                wire::append_all(&mut ps.vps, nals.as_slice());
            } else if nal_type == 33 {
                wire::append_all(&mut ps.sps, nals.as_slice());
            } else if nal_type == 34 {
                wire::append_all(&mut ps.pps, nals.as_slice());
            }
            if !whole {
                assert(ps@.vps =~= all.vps);
                assert(ps@.sps =~= all.sps);
                assert(ps@.pps =~= all.pps);
                assert(ps@ =~= all);
                return Some(ps);
            }
            proof {
                let m = (left - 1) as nat;
                assert(ps@.vps + nals_of_type(payload@, next as int, m, 32) =~= before.vps
                    + nals_of_type(payload@, p as int, left as nat, 32));
                assert(ps@.sps + nals_of_type(payload@, next as int, m, 33) =~= before.sps
                    + nals_of_type(payload@, p as int, left as nat, 33));
                assert(ps@.pps + nals_of_type(payload@, next as int, m, 34) =~= before.pps
                    + nals_of_type(payload@, p as int, left as nat, 34));
            }
            p = next;
            left = left - 1;
        }
        assert(ps@.vps =~= all.vps);
        assert(ps@.sps =~= all.sps);
        assert(ps@.pps =~= all.pps);
        assert(ps@ =~= all);
        Some(ps)
    }

    /// Reads the `hvcC` of an init segment.
    pub fn find_in_init(init: &[u8]) -> (r: Option<Self>)
        ensures
            match r {
                None => hvcc_in_init(init@) is None,
                Some(ps) => hvcc_in_init(init@) == Some(ps@),
            },
    {
        match boxes::locate(init, &HVCC) {
            Some(p) => Self::parse_hvcc(p),
            None => None,
        }
    }
}

} // verus!
