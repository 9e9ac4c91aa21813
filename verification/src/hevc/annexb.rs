//! From length-prefixed NAL units to Annex-B access units.
//!
//! Every NAL unit gets a start code. A random access unit gets the parameter sets injected behind
//! its access unit delimiter, so that a segment decodes on its own. NAL units pass through
//! untouched, the Dolby Vision RPU among them.

use vstd::prelude::*;

use super::{h264, nal};
use crate::ts::VideoCodec;
use crate::wire;

verus! {

/// The NAL type in the first header byte.
pub open spec fn type_of(codec: VideoCodec, first_byte: u8) -> int {
    match codec {
        VideoCodec::Hevc => first_byte as int / 2 % 64,
        VideoCodec::H264 => first_byte as int % 32,
    }
}

/// Whether a NAL unit is a random access point.
pub open spec fn irap_unit(codec: VideoCodec, nalu: Seq<u8>) -> bool {
    nalu.len() > 0 && match codec {
        VideoCodec::Hevc => 16 <= type_of(codec, nalu[0]) <= 23,
        VideoCodec::H264 => type_of(codec, nalu[0]) == 5,
    }
}

/// Whether a NAL unit is an access unit delimiter.
pub open spec fn aud_unit(codec: VideoCodec, nalu: Seq<u8>) -> bool {
    nalu.len() > 0 && type_of(codec, nalu[0]) == match codec {
        VideoCodec::Hevc => 35int,
        VideoCodec::H264 => 9,
    }
}

/// The NAL units of a sample from `p` on, each behind its length in four bytes. The walk ends at
/// a unit without bytes and at one that is cut off.
pub open spec fn split_from(d: Seq<u8>, p: int) -> Seq<Seq<u8>>
    decreases d.len() - p,
{
    if p < 0 || p + 4 > d.len() {
        Seq::empty()
    } else {
        let n = wire::be32_at(d, p);
        if n <= 0 || p + 4 + n > d.len() {
            Seq::empty()
        } else {
            seq![d.subrange(p + 4, p + 4 + n)] + split_from(d, p + 4 + n)
        }
    }
}

/// NAL units, each behind its length in four bytes.
pub open spec fn length_prefixed(nals: Seq<Seq<u8>>) -> Seq<u8>
    decreases nals.len(),
{
    if nals.len() == 0 {
        Seq::empty()
    } else {
        wire::be32_bytes(nals[0].len() as int) + nals[0] + length_prefixed(nals.skip(1))
    }
}

/// One NAL unit behind its start code.
pub open spec fn framed(nalu: Seq<u8>) -> Seq<u8> {
    seq![0u8, 0u8, 0u8, 1u8] + nalu
}

/// All NAL units, framed.
pub open spec fn framed_all(nals: Seq<Seq<u8>>) -> Seq<u8>
    decreases nals.len(),
{
    if nals.len() == 0 {
        Seq::empty()
    } else {
        framed_all(nals.drop_last()) + framed(nals.last())
    }
}

/// All NAL units that have bytes, framed.
pub open spec fn framed_units(nals: Seq<Seq<u8>>) -> Seq<u8>
    decreases nals.len(),
{
    if nals.len() == 0 {
        Seq::empty()
    } else if nals.last().len() == 0 {
        framed_units(nals.drop_last())
    } else {
        framed_units(nals.drop_last()) + framed(nals.last())
    }
}

/// The first unit with bytes from `i` on.
pub open spec fn first_unit(nals: Seq<Seq<u8>>, i: int) -> int
    decreases nals.len() - i,
{
    if i < 0 || i >= nals.len() {
        nals.len() as int
    } else if nals[i].len() == 0 {
        first_unit(nals, i + 1)
    } else {
        i
    }
}

/// Whether units begin with an access unit delimiter, units without bytes aside.
pub open spec fn leads_with_aud(codec: VideoCodec, nals: Seq<Seq<u8>>) -> bool {
    let f = first_unit(nals, 0);
    f < nals.len() && aud_unit(codec, nals[f])
}

/// How many units stand before the parameter sets: those up to a leading access unit delimiter.
pub open spec fn injection_point(codec: VideoCodec, nals: Seq<Seq<u8>>) -> int {
    if leads_with_aud(codec, nals) {
        first_unit(nals, 0) + 1
    } else {
        first_unit(nals, 0)
    }
}

/// One frame.
#[derive(Debug, Clone)]
pub struct AccessUnit {
    pub nals: Vec<Vec<u8>>,
    pub is_irap: bool,
    pub dts: u64,
    pub cts_offset: i64,
    pub codec: VideoCodec,
}

/// What a value of [`AccessUnit`] holds.
#[verifier::ext_equal]
pub struct AccessUnitView {
    pub nals: Seq<Seq<u8>>,
    pub is_irap: bool,
    pub dts: u64,
    pub cts_offset: i64,
    pub codec: VideoCodec,
}

impl View for AccessUnit {
    type V = AccessUnitView;

    open spec fn view(&self) -> AccessUnitView {
        AccessUnitView {
            nals: wire::views(self.nals@),
            is_irap: self.is_irap,
            dts: self.dts,
            cts_offset: self.cts_offset,
            codec: self.codec,
        }
    }
}

/// The access unit of a sample.
pub open spec fn unit_of(
    sample: Seq<u8>,
    dts: u64,
    cts_offset: i64,
    codec: VideoCodec,
) -> AccessUnitView {
    let nals = split_from(sample, 0);
    AccessUnitView {
        nals,
        is_irap: exists|i: int| 0 <= i < nals.len() && irap_unit(codec, #[trigger] nals[i]),
        dts,
        cts_offset,
        codec,
    }
}

impl AccessUnitView {
    /// What is left in a buffer that held `out` after this unit has been written behind it.
    pub open spec fn written(self, out: Seq<u8>, param_sets: Seq<Seq<u8>>) -> Seq<u8> {
        let k = injection_point(self.codec, self.nals);
        if self.is_irap {
            out + framed_units(self.nals.take(k)) + framed_all(param_sets) + framed_units(
                self.nals.skip(k),
            )
        } else {
            out + framed_units(self.nals)
        }
    }
}

proof fn lemma_length_is_read(before: Seq<u8>, n: int, rest: Seq<u8>)
    requires
        0 <= n <= u32::MAX,
    ensures
        wire::be32_at(before + wire::be32_bytes(n) + rest, before.len() as int) == n,
{
    let head = wire::be32_bytes(n);
    let d = before + head + rest;
    let p = before.len() as int;
    wire::law_be32_round_trip(n as u32);
    assert(d[p] == head[0] && d[p + 1] == head[1] && d[p + 2] == head[2] && d[p + 3] == head[3]);
}

/// Splitting a sample gives back the NAL units that it was made of.
pub proof fn law_split_undoes_length_prefix(nals: Seq<Seq<u8>>, before: Seq<u8>)
    requires
        forall|i: int| 0 <= i < nals.len() ==> 0 < (#[trigger] nals[i]).len() <= u32::MAX,
    ensures
        split_from(before + length_prefixed(nals), before.len() as int) == nals,
    decreases nals.len(),
{
    let d = before + length_prefixed(nals);
    let p = before.len() as int;
    if nals.len() > 0 {
        let n = nals[0].len() as int;
        let head = wire::be32_bytes(n);
        let rest = length_prefixed(nals.skip(1));
        let next = before + head + nals[0];
        assert(before + head + (nals[0] + rest) =~= d);
        lemma_length_is_read(before, n, nals[0] + rest);
        assert(next.len() == p + 4 + n);
        assert(next + rest =~= d);
        assert(d.subrange(p + 4, p + 4 + n) =~= nals[0]);
        assert forall|i: int| 0 <= i < nals.skip(1).len() implies 0 < (#[trigger] nals.skip(
            1,
        )[i]).len() <= u32::MAX by {
            assert(nals.skip(1)[i] == nals[i + 1]);
        }
        law_split_undoes_length_prefix(nals.skip(1), next);
        assert(split_from(d, p + 4 + n) == nals.skip(1));
        assert(seq![nals[0]] + nals.skip(1) =~= nals);
    } else {
        assert(split_from(d, p) =~= nals);
    }
}

proof fn lemma_framed_units_split(a: Seq<Seq<u8>>, b: Seq<Seq<u8>>)
    ensures
        framed_units(a + b) == framed_units(a) + framed_units(b),
    decreases b.len(),
{
    if b.len() == 0 {
        assert(a + b =~= a);
        assert(framed_units(a) + framed_units(b) =~= framed_units(a));
    } else {
        assert((a + b).drop_last() =~= a + b.drop_last());
        lemma_framed_units_split(a, b.drop_last());
        assert(framed_units(a) + (framed_units(b.drop_last()) + framed(b.last())) =~= (framed_units(
            a,
        ) + framed_units(b.drop_last())) + framed(b.last()));
    }
}

proof fn lemma_first_unit(nals: Seq<Seq<u8>>, i: int)
    requires
        0 <= i <= nals.len(),
    ensures
        i <= first_unit(nals, i) <= nals.len(),
        first_unit(nals, i) < nals.len() ==> nals[first_unit(nals, i)].len() > 0,
        forall|j: int| i <= j < first_unit(nals, i) ==> (#[trigger] nals[j]).len() == 0,
    decreases nals.len() - i,
{
    if i < nals.len() && nals[i].len() == 0 {
        lemma_first_unit(nals, i + 1);
    }
}

proof fn lemma_no_bytes(nals: Seq<Seq<u8>>)
    requires
        forall|j: int| 0 <= j < nals.len() ==> (#[trigger] nals[j]).len() == 0,
    ensures
        framed_units(nals) == Seq::<u8>::empty(),
    decreases nals.len(),
{
    if nals.len() > 0 {
        lemma_no_bytes(nals.drop_last());
    }
}

proof fn lemma_split_at(nals: Seq<Seq<u8>>, k: int)
    requires
        0 <= k <= nals.len(),
    ensures
        framed_units(nals) == framed_units(nals.take(k)) + framed_units(nals.skip(k)),
{
    assert(nals.take(k) + nals.skip(k) =~= nals);
    lemma_framed_units_split(nals.take(k), nals.skip(k));
}

/// A unit is written behind what a buffer holds, and without parameter sets to inject it is its
/// NAL units one after the other, each untouched behind a start code.
pub proof fn law_units_pass_through(
    au: AccessUnitView,
    out: Seq<u8>,
    param_sets: Seq<Seq<u8>>,
)
    ensures
        au.written(out, param_sets) == out + au.written(Seq::empty(), param_sets),
        au.written(Seq::empty(), Seq::empty()) == framed_units(au.nals),
{
    let k = injection_point(au.codec, au.nals);
    lemma_first_unit(au.nals, 0);
    lemma_split_at(au.nals, k);
    let e = Seq::<u8>::empty();
    assert(e + framed_units(au.nals) =~= framed_units(au.nals));
    assert(e + framed_units(au.nals.take(k)) + e + framed_units(au.nals.skip(k)) =~= framed_units(
        au.nals.take(k),
    ) + framed_units(au.nals.skip(k)));
    assert(au.written(out, param_sets) =~= out + au.written(e, param_sets));
}

/// Whether bytes are the NAL units of a unit, untouched and in their order, with nothing but
/// parameter sets between them: those of a random access unit, before its `k`-th NAL unit.
pub open spec fn written_at(
    bytes: Seq<u8>,
    au: AccessUnitView,
    k: int,
    param_sets: Seq<Seq<u8>>,
) -> bool {
    &&& 0 <= k <= au.nals.len()
    &&& bytes == framed_units(au.nals.take(k)) + (if au.is_irap {
        framed_all(param_sets)
    } else {
        Seq::empty()
    }) + framed_units(au.nals.skip(k))
}

/// A unit is written with all its NAL units, untouched and in their order.
pub proof fn law_units_are_kept(au: AccessUnitView, param_sets: Seq<Seq<u8>>)
    ensures
        exists|k: int| #[trigger]
            written_at(au.written(Seq::empty(), param_sets), au, k, param_sets),
{
    let bytes = au.written(Seq::empty(), param_sets);
    let k = injection_point(au.codec, au.nals);
    lemma_first_unit(au.nals, 0);
    lemma_split_at(au.nals, k);
    let e = Seq::<u8>::empty();
    let injected = if au.is_irap {
        framed_all(param_sets)
    } else {
        e
    };
    assert(bytes =~= framed_units(au.nals.take(k)) + injected + framed_units(au.nals.skip(k)));
    assert(written_at(bytes, au, k, param_sets));
}

/// The parameter sets of a random access unit go behind its leading access unit delimiter, or
/// before its units where it has none.
pub proof fn law_parameter_sets_follow_delimiter(
    au: AccessUnitView,
    out: Seq<u8>,
    param_sets: Seq<Seq<u8>>,
)
    requires
        au.is_irap,
    ensures
        leads_with_aud(au.codec, au.nals) ==> {
            let f = first_unit(au.nals, 0);
            au.written(out, param_sets) == out + framed(au.nals[f]) + framed_all(param_sets)
                + framed_units(au.nals.skip(f + 1))
        },
        !leads_with_aud(au.codec, au.nals) ==> au.written(out, param_sets) == out + framed_all(
            param_sets,
        ) + framed_units(au.nals),
{
    let f = first_unit(au.nals, 0);
    let e = Seq::<u8>::empty();
    lemma_first_unit(au.nals, 0);
    lemma_no_bytes(au.nals.take(f));
    if leads_with_aud(au.codec, au.nals) {
        let head = au.nals.take(f + 1);
        assert(head.drop_last() =~= au.nals.take(f));
        assert(framed_units(head) =~= framed(au.nals[f]));
    } else {
        lemma_split_at(au.nals, f);
        assert(framed_units(au.nals) =~= framed_units(au.nals.skip(f)));
        assert(out + e + framed_all(param_sets) =~= out + framed_all(param_sets));
    }
}

fn nal_type(codec: VideoCodec, first_byte: u8) -> (r: u8)
    ensures
        r == type_of(codec, first_byte),
{
    match codec {
        VideoCodec::Hevc => nal::nal_type(first_byte),
        VideoCodec::H264 => h264::nal_type(first_byte),
    }
}

fn is_irap_unit(codec: VideoCodec, nalu: &[u8]) -> (r: bool)
    ensures
        r == irap_unit(codec, nalu@),
{
    if nalu.len() == 0 {
        return false;
    }
    let t: u8 = nal_type(codec, nalu[0]);
    match codec {
        VideoCodec::Hevc => nal::is_irap(t),
        VideoCodec::H264 => h264::is_irap(t),
    }
}

fn is_aud_unit(codec: VideoCodec, nalu: &[u8]) -> (r: bool)
    ensures
        r == aud_unit(codec, nalu@),
{
    if nalu.len() == 0 {
        return false;
    }
    let t: u8 = nal_type(codec, nalu[0]);
    match codec {
        VideoCodec::Hevc => t == nal::AUD,
        VideoCodec::H264 => t == h264::AUD,
    }
}

/// What a list of slices holds.
pub open spec fn slices<'a>(v: Seq<&'a [u8]>) -> Seq<Seq<u8>> {
    v.map_values(|x: &'a [u8]| x@)
}

/// Splits a sample into its bare NAL units.
pub fn split_length_prefixed<'a>(sample: &'a [u8]) -> (r: Vec<&'a [u8]>)
    ensures
        slices(r@) == split_from(sample@, 0),
{
    let len: usize = sample.len();
    let mut out: Vec<&'a [u8]> = Vec::new();
    let mut p: usize = 0;
    let ghost all = split_from(sample@, 0);
    assert(slices(out@) + all =~= all);
    while len - p >= 4
        invariant_except_break
            len == sample@.len(),
            p <= len,
            slices(out@) + split_from(sample@, p as int) == all,
        ensures
            slices(out@) == all,
        decreases len - p,
    {
        let n: usize = wire::read_be32(sample, p) as usize;
        if n == 0 || len - p - 4 < n {
            assert(slices(out@) =~= slices(out@) + split_from(sample@, p as int));
            break;
        }
        let end: usize = p + 4 + n;
        let nalu: &'a [u8] = vstd::slice::slice_subrange(sample, p + 4, end);
        let ghost before = out@;
        out.push(nalu);
        proof {
            let rest = split_from(sample@, end as int);
            assert(slices(out@) =~= slices(before).push(nalu@));
            assert(slices(out@) + rest =~= slices(before) + (seq![nalu@] + rest));
        }
        p = end;
        if len - p < 4 {
            assert(slices(out@) =~= slices(out@) + split_from(sample@, p as int));
        }
    }
    out
}

fn push_framed(out: &mut Vec<u8>, nalu: &[u8])
    ensures
        final(out)@ == old(out)@ + framed(nalu@),
{
    out.push(0);
    out.push(0);
    out.push(0);
    out.push(1);
    wire::append(out, nalu);
    assert(out@ =~= old(out)@ + framed(nalu@));
}

fn push_framed_all(out: &mut Vec<u8>, nals: &[Vec<u8>])
    ensures
        final(out)@ == old(out)@ + framed_all(wire::views(nals@)),
{
    let ghost v = wire::views(nals@);
    for i in 0..nals.len()
        invariant
            v == wire::views(nals@),
            out@ == old(out)@ + framed_all(v.take(i as int)),
    {
        let ghost before = out@;
        push_framed(out, nals[i].as_slice());
        assert(v.take(i as int + 1).drop_last() =~= v.take(i as int));
        assert(out@ =~= old(out)@ + framed_all(v.take(i as int + 1)));
    }
    assert(v.take(nals@.len() as int) =~= v);
    assert(out@ =~= old(out)@ + framed_all(v));
}

/// Writes the units with bytes from `from` up to `to`.
fn push_units(out: &mut Vec<u8>, nals: &[Vec<u8>], from: usize, to: usize)
    requires
        from <= to <= nals@.len(),
    ensures
        final(out)@ == old(out)@ + framed_units(
            wire::views(nals@).subrange(from as int, to as int),
        ),
{
    let ghost v = wire::views(nals@);
    assert(v.subrange(from as int, from as int) =~= Seq::<Seq<u8>>::empty());
    assert(out@ + framed_units(v.subrange(from as int, from as int)) =~= out@);
    for i in from..to
        invariant
            from <= i <= to <= nals@.len(),
            v == wire::views(nals@),
            out@ == old(out)@ + framed_units(v.subrange(from as int, i as int)),
    {
        let ghost next = v.subrange(from as int, i as int + 1);
        assert(next.drop_last() =~= v.subrange(from as int, i as int));
        assert(nals@[i as int]@ == v[i as int]);
        if nals[i].len() > 0 {
            push_framed(out, nals[i].as_slice());
        }
        assert(out@ =~= old(out)@ + framed_units(next));
    }
}

impl AccessUnit {
    /// The access unit of a length-prefixed sample.
    pub fn from_sample(sample: &[u8], dts: u64, cts_offset: i64, codec: VideoCodec) -> (r: Self)
        ensures
            r@ == unit_of(sample@, dts, cts_offset, codec),
    {
        let parts: Vec<&[u8]> = split_length_prefixed(sample);
        let mut nals: Vec<Vec<u8>> = Vec::new();
        let mut is_irap: bool = false;
        let ghost all = split_from(sample@, 0);
        for i in 0..parts.len()
            invariant
                all == split_from(sample@, 0),
                slices(parts@) == all,
                wire::views(nals@) == all.take(i as int),
                is_irap == exists|j: int| 0 <= j < i && irap_unit(codec, #[trigger] all[j]),
        {
            let part: &[u8] = parts[i];
            assert(part@ == slices(parts@)[i as int]);
            if is_irap_unit(codec, part) {
                is_irap = true;
            }
            let ghost before = nals@;
            let nalu: Vec<u8> = wire::copy(part);
            nals.push(nalu);
            assert(wire::views(nals@) =~= wire::views(before).push(nalu@));
            assert(all.take(i as int + 1) =~= all.take(i as int).push(all[i as int]));
        }
        assert(all.take(all.len() as int) =~= all);
        AccessUnit { nals, is_irap, dts, cts_offset, codec }
    }

    /// Writes the unit behind `out`; a random access unit gets `param_sets` injected.
    pub fn write_annexb(&self, out: &mut Vec<u8>, param_sets: &[Vec<u8>])
        ensures
            final(out)@ == self@.written(old(out)@, wire::views(param_sets@)),
    {
        let codec: VideoCodec = self.codec;
        let total: usize = self.nals.len();
        let ghost v = self@.nals;
        let ghost ps = wire::views(param_sets@);
        let mut k: usize = 0;
        while k < total && self.nals[k].len() == 0
            invariant
                total == v.len(),
                v == wire::views(self.nals@),
                k <= total,
                first_unit(v, 0) == first_unit(v, k as int),
            decreases total - k,
        {
            assert(self.nals@[k as int]@ == v[k as int]);
            k = k + 1;
        }
        assert(k < total ==> self.nals@[k as int]@ == v[k as int]);
        if k < total && is_aud_unit(codec, self.nals[k].as_slice()) {
            k = k + 1;
        }
        assert(k == injection_point(codec, v));
        if self.is_irap {
            push_units(out, &self.nals, 0, k);
            push_framed_all(out, param_sets);
            push_units(out, &self.nals, k, total);
            assert(v.subrange(0, k as int) =~= v.take(k as int));
            assert(v.subrange(k as int, total as int) =~= v.skip(k as int));
        } else {
            push_units(out, &self.nals, 0, total);
            assert(v.subrange(0, total as int) =~= v);
        }
    }
}

} // verus!
