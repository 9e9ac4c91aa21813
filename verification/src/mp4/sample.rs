//! Media segments: the bytes, duration, composition offset, IV and encryption map of every
//! sample.

use vstd::prelude::*;

use super::boxes;
use crate::wire;

verus! {

/// `moof`
pub const MOOF: [u8; 4] = [0x6d, 0x6f, 0x6f, 0x66];

/// `traf`
pub const TRAF: [u8; 4] = [0x74, 0x72, 0x61, 0x66];

/// `trun`
pub const TRUN: [u8; 4] = [0x74, 0x72, 0x75, 0x6e];

/// `tfhd`
pub const TFHD: [u8; 4] = [0x74, 0x66, 0x68, 0x64];

/// `tfdt`
pub const TFDT: [u8; 4] = [0x74, 0x66, 0x64, 0x74];

/// `senc`
pub const SENC: [u8; 4] = [0x73, 0x65, 0x6e, 0x63];

/// `mdat`
pub const MDAT: [u8; 4] = [0x6d, 0x64, 0x61, 0x74];

/// A stretch of clear bytes followed by encrypted ones.
#[derive(Debug, Clone, Copy, PartialEq, Eq, Structural)]
pub struct SubSample {
    pub clear: u16,
    pub encrypted: u32,
}

/// One frame.
#[derive(Debug)]
pub struct SampleInfo {
    /// Where the bytes start and end in the payload of `mdat`.
    pub data_range: (usize, usize),
    pub duration: u32,
    pub cts_offset: i32,
    /// The IV of this sample; empty where the constant IV holds.
    pub iv: Vec<u8>,
    /// The encryption map; empty where the whole sample is encrypted.
    pub subsamples: Vec<SubSample>,
}

/// What a value of [`SampleInfo`] holds.
#[verifier::ext_equal]
pub struct SampleView {
    pub from: int,
    pub to: int,
    pub duration: u32,
    pub cts_offset: i32,
    pub iv: Seq<u8>,
    pub subsamples: Seq<SubSample>,
}

impl View for SampleInfo {
    type V = SampleView;

    open spec fn view(&self) -> SampleView {
        SampleView {
            from: self.data_range.0 as int,
            to: self.data_range.1 as int,
            duration: self.duration,
            cts_offset: self.cts_offset,
            iv: self.iv@,
            subsamples: self.subsamples@,
        }
    }
}

/// A parsed segment.
#[derive(Debug)]
pub struct ParsedSegment {
    pub samples: Vec<SampleInfo>,
    /// The payload of `mdat`, still encrypted.
    pub mdat: Vec<u8>,
    /// The decode time of the first sample, in ticks of the track, where `tfdt` states it.
    pub base_media_decode_time: Option<u64>,
}

/// What a value of [`ParsedSegment`] holds.
#[verifier::ext_equal]
pub struct SegmentView {
    pub samples: Seq<SampleView>,
    pub mdat: Seq<u8>,
    pub base_media_decode_time: Option<u64>,
}

/// What a list of samples holds.
pub open spec fn sample_views(v: Seq<SampleInfo>) -> Seq<SampleView> {
    v.map_values(|s: SampleInfo| s@)
}

impl View for ParsedSegment {
    type V = SegmentView;

    open spec fn view(&self) -> SegmentView {
        SegmentView {
            samples: sample_views(self.samples@),
            mdat: self.mdat@,
            base_media_decode_time: self.base_media_decode_time,
        }
    }
}

/// What a `trun` states of its samples. A column that it does not carry is empty.
#[verifier::ext_equal]
pub struct TrunView {
    pub durations: Seq<u32>,
    pub sizes: Seq<u32>,
    pub cts: Seq<i32>,
    pub count: nat,
}

/// Where the sample records of a `trun` lie and what each holds, from its flags.
pub struct TrunLayout {
    pub has_duration: bool,
    pub has_size: bool,
    pub has_cts: bool,
    pub start: int,
    pub size_at: int,
    pub cts_at: int,
    pub stride: int,
    /// How much of a record is read.
    pub used: int,
}

pub open spec fn trun_layout(d: Seq<u8>) -> TrunLayout {
    let field = |present: bool|
        if present {
            4int
        } else {
            0int
        };
    let has_duration = d[2] as int % 2 == 1;
    let has_size = d[2] as int / 2 % 2 == 1;
    let has_flags = d[2] as int / 4 % 2 == 1;
    let has_cts = d[2] as int / 8 % 2 == 1;
    let size_at = field(has_duration);
    let cts_at = size_at + field(has_size) + field(has_flags);
    let stride = cts_at + field(has_cts);
    TrunLayout {
        has_duration,
        has_size,
        has_cts,
        start: 8 + field(d[3] as int % 2 == 1) + field(d[3] as int / 4 % 2 == 1),
        size_at,
        cts_at,
        stride,
        used: if has_cts {
            stride
        } else if has_size {
            size_at + 4
        } else {
            size_at
        },
    }
}

/// The unsigned numbers at `first`, `first + stride` and so on.
pub open spec fn column(d: Seq<u8>, first: int, stride: int, n: nat) -> Seq<u32> {
    Seq::new(n, |i: int| wire::be32_at(d, first + i * stride) as u32)
}

/// The signed numbers at `first`, `first + stride` and so on.
pub open spec fn signed_column(d: Seq<u8>, first: int, stride: int, n: nat) -> Seq<i32> {
    Seq::new(n, |i: int| wire::signed32(wire::be32_at(d, first + i * stride)) as i32)
}

/// What a `trun` payload states, if its records are not cut off.
pub open spec fn trun_of(d: Seq<u8>) -> Option<TrunView> {
    if d.len() < 8 {
        None
    } else {
        let l = trun_layout(d);
        let count = wire::be32_at(d, 4) as nat;
        if count > 0 && l.used > 0 && l.start + (count - 1) * l.stride + l.used > d.len() {
            None
        } else {
            let none = 0nat;
            Some(
                TrunView {
                    durations: column(
                        d,
                        l.start,
                        l.stride,
                        if l.has_duration {
                            count
                        } else {
                            none
                        },
                    ),
                    sizes: column(
                        d,
                        l.start + l.size_at,
                        l.stride,
                        if l.has_size {
                            count
                        } else {
                            none
                        },
                    ),
                    cts: signed_column(
                        d,
                        l.start + l.cts_at,
                        l.stride,
                        if l.has_cts {
                            count
                        } else {
                            none
                        },
                    ),
                    count,
                },
            )
        }
    }
}

/// Where the optional fields of a `tfhd` that this module reads start.
pub open spec fn tfhd_defaults_at(d: Seq<u8>) -> int {
    8 + (if d[3] as int % 2 == 1 {
        8int
    } else {
        0
    }) + (if d[3] as int / 2 % 2 == 1 {
        4int
    } else {
        0
    })
}

/// The default sample duration that a `tfhd` payload states.
pub open spec fn tfhd_duration(d: Seq<u8>) -> Option<u32> {
    if d.len() >= 8 && d[3] as int / 8 % 2 == 1 && tfhd_defaults_at(d) + 4 <= d.len() {
        Some(wire::be32_at(d, tfhd_defaults_at(d)) as u32)
    } else {
        None
    }
}

/// The default sample size that a `tfhd` payload states, behind the duration.
pub open spec fn tfhd_size(d: Seq<u8>) -> Option<u32> {
    let at = tfhd_defaults_at(d) + if d[3] as int / 8 % 2 == 1 {
        4int
    } else {
        0
    };
    if d.len() >= 8 && d[3] as int / 16 % 2 == 1 && at + 4 <= d.len() {
        Some(wire::be32_at(d, at) as u32)
    } else {
        None
    }
}

/// The decode time that a `tfdt` payload states: 64 bits in version 1, else 32.
pub open spec fn tfdt_of(d: Seq<u8>) -> Option<u64> {
    if d.len() > 0 && d[0] == 1 {
        if d.len() < 12 {
            None
        } else {
            Some(wire::be64_at(d, 4) as u64)
        }
    } else if d.len() < 8 {
        None
    } else {
        Some(wire::be32_at(d, 4) as u64)
    }
}

/// What a `senc` states of its samples. The maps end before the IVs where the last map is cut
/// off.
#[verifier::ext_equal]
pub struct SencView {
    pub ivs: Seq<Seq<u8>>,
    pub maps: Seq<Seq<SubSample>>,
}

/// The map entries at `p`, at most `n`, up to the end of `d`.
pub open spec fn map_at(d: Seq<u8>, p: int, n: nat) -> Seq<SubSample>
    decreases n,
{
    if n == 0 || p + 6 > d.len() {
        Seq::empty()
    } else {
        seq![
            SubSample {
                clear: wire::be16_at(d, p) as u16,
                encrypted: wire::be32_at(d, p + 2) as u32,
            },
        ] + map_at(d, p + 6, (n - 1) as nat)
    }
}

/// The sample records at `p`, at most `n`, up to the end of `d`.
pub open spec fn senc_records(d: Seq<u8>, p: int, n: nat, iv_size: int, mapped: bool) -> SencView
    decreases n,
{
    let q = p + iv_size;
    if n == 0 || q > d.len() {
        SencView { ivs: Seq::empty(), maps: Seq::empty() }
    } else if mapped && q + 2 > d.len() {
        SencView { ivs: seq![d.subrange(p, q)], maps: Seq::empty() }
    } else {
        let map = if mapped {
            map_at(d, q + 2, wire::be16_at(d, q) as nat)
        } else {
            Seq::empty()
        };
        let next = if mapped {
            q + 2 + 6 * map.len()
        } else {
            q
        };
        let rest = senc_records(d, next, (n - 1) as nat, iv_size, mapped);
        SencView { ivs: seq![d.subrange(p, q)] + rest.ivs, maps: seq![map] + rest.maps }
    }
}

/// Whether `n` records with maps, and IVs of `iv_size` bytes, fill `d` from `p` exactly.
pub open spec fn iv_size_fits(d: Seq<u8>, p: int, n: nat, iv_size: int) -> bool
    decreases n,
{
    if n == 0 {
        p == d.len()
    } else if p + iv_size + 2 > d.len() {
        false
    } else {
        let next = p + iv_size + 2 + 6 * wire::be16_at(d, p + iv_size);
        next <= d.len() && iv_size_fits(d, next, (n - 1) as nat, iv_size)
    }
}

/// The IV size that the length of the records gives away.
pub open spec fn inferred_iv_size(d: Seq<u8>, count: nat, mapped: bool) -> Option<int> {
    if !mapped && count > 0 && d.len() == count * 8 {
        Some(8)
    } else if !mapped && count > 0 && d.len() == count * 16 {
        Some(16)
    } else if !mapped && count > 0 && d.len() == 0 {
        Some(0)
    } else if iv_size_fits(d, 0, count, 8) {
        Some(8)
    } else if iv_size_fits(d, 0, count, 16) {
        Some(16)
    } else {
        None
    }
}

/// What a `senc` payload states. The IV size comes from the box itself, else from the track,
/// else from the length of the records, else it is 8.
pub open spec fn senc_of(d: Seq<u8>, default_iv_size: Option<u8>) -> Option<SencView> {
    if d.len() < 8 {
        None
    } else {
        let own = d[3] as int % 2 == 1;
        let mapped = d[3] as int / 2 % 2 == 1;
        let p: int = if own {
            24
        } else {
            4
        };
        if p + 4 > d.len() {
            None
        } else {
            let count = wire::be32_at(d, p) as nat;
            let iv_size: int = if own {
                d[7] as int
            } else {
                match default_iv_size {
                    Some(v) => v as int,
                    None => match inferred_iv_size(d.skip(p + 4), count, mapped) {
                        Some(v) => v,
                        None => 8,
                    },
                }
            };
            Some(senc_records(d, p + 4, count, iv_size, mapped))
        }
    }
}

/// The payload of the first of the boxes that has the type `typ`.
pub open spec fn first_of_type(b: Seq<boxes::BoxSpan>, typ: Seq<u8>) -> Option<Seq<u8>>
    decreases b.len(),
{
    if b.len() == 0 {
        None
    } else if b[0].typ == typ {
        Some(b[0].payload)
    } else {
        first_of_type(b.skip(1), typ)
    }
}

/// The sum of the first `n` sizes.
pub open spec fn total(sizes: Seq<u32>, n: int) -> int
    decreases n,
{
    if n <= 0 {
        0
    } else {
        total(sizes, n - 1) + sizes[n - 1]
    }
}

/// A column that may be missing, filled with the default of the track fragment.
pub open spec fn filled(column: Seq<u32>, count: nat, default: Option<u32>) -> Seq<u32> {
    if column.len() == 0 && count > 0 && default is Some {
        Seq::new(count, |i: int| default->0)
    } else {
        column
    }
}

/// The box of type `typ` inside `d`.
pub open spec fn inside(d: Seq<u8>, typ: Seq<u8>) -> Option<Seq<u8>> {
    boxes::find_from(d, 0, typ, boxes::CONTAINERS@)
}

/// The sample table of a track fragment, with samples that lie one behind the other.
pub open spec fn samples_of(
    trun: TrunView,
    tfhd: Option<Seq<u8>>,
    senc: SencView,
) -> Seq<SampleView> {
    let sizes = filled(
        trun.sizes,
        trun.count,
        match tfhd {
            Some(h) => tfhd_size(h),
            None => None,
        },
    );
    let durations = filled(
        trun.durations,
        trun.count,
        match tfhd {
            Some(h) => tfhd_duration(h),
            None => None,
        },
    );
    Seq::new(
        sizes.len(),
        |i: int|
            SampleView {
                from: total(sizes, i),
                to: total(sizes, i + 1),
                duration: if i < durations.len() {
                    durations[i]
                } else {
                    0
                },
                cts_offset: if i < trun.cts.len() {
                    trun.cts[i]
                } else {
                    0
                },
                iv: if i < senc.ivs.len() {
                    senc.ivs[i]
                } else {
                    Seq::empty()
                },
                subsamples: if i < senc.maps.len() {
                    senc.maps[i]
                } else {
                    Seq::empty()
                },
            },
    )
}

/// What a media segment states: it needs `moof`, `traf`, a whole `trun`, a readable `senc` where
/// there is one, `mdat`, and samples whose lengths add up in a machine word.
pub open spec fn segment_of(seg: Seq<u8>, default_iv_size: Option<u8>) -> Option<SegmentView> {
    match inside(seg, MOOF@) {
        None => None,
        Some(moof) => match inside(moof, TRAF@) {
            None => None,
            Some(traf) => match inside(traf, TRUN@) {
                None => None,
                Some(trun) => fragment_of(seg, traf, trun, default_iv_size),
            },
        },
    }
}

/// What a media segment with the track fragment `traf` and its `trun` states.
pub open spec fn fragment_of(
    seg: Seq<u8>,
    traf: Seq<u8>,
    trun: Seq<u8>,
    default_iv_size: Option<u8>,
) -> Option<SegmentView> {
    let senc = match inside(traf, SENC@) {
        Some(s) => senc_of(s, default_iv_size),
        None => Some(SencView { ivs: Seq::empty(), maps: Seq::empty() }),
    };
    let mdat = first_of_type(boxes::boxes_from(seg, 0), MDAT@);
    if trun_of(trun) is None || senc is None || mdat is None {
        None
    } else {
        let samples = samples_of(trun_of(trun)->0, inside(traf, TFHD@), senc->0);
        if samples.len() > 0 && samples.last().to > usize::MAX {
            None
        } else {
            Some(
                SegmentView {
                    samples,
                    mdat: mdat->0,
                    base_media_decode_time: match inside(traf, TFDT@) {
                        Some(t) => tfdt_of(t),
                        None => None,
                    },
                },
            )
        }
    }
}

/// Reads a media segment; the IV size is inferred from its `senc`.
pub fn parse_media_segment(seg: &[u8]) -> (r: Option<ParsedSegment>)
    ensures
        match r {
            None => segment_of(seg@, None) is None,
            Some(s) => segment_of(seg@, None) == Some(s@),
        },
{
    parse_media_segment_with_default_iv_size(seg, None)
}

fn find_inside<'a>(d: &'a [u8], typ: &[u8; 4]) -> (r: Option<&'a [u8]>)
    ensures
        match r {
            None => inside(d@, typ@) is None,
            Some(p) => inside(d@, typ@) == Some(p@),
        },
{
    boxes::find_box(d, typ, boxes::CONTAINERS.as_slice())
}

/// Reads a media segment of a track whose `tenc` states the IV size of its samples.
pub fn parse_media_segment_with_default_iv_size(seg: &[u8], default_iv_size: Option<u8>) -> (r:
    Option<ParsedSegment>)
    ensures
        match r {
            None => segment_of(seg@, default_iv_size) is None,
            Some(s) => segment_of(seg@, default_iv_size) == Some(s@),
        },
{
    let moof: &[u8] = match find_inside(seg, &MOOF) {
        None => return None,
        Some(p) => p,
    };
    let traf: &[u8] = match find_inside(moof, &TRAF) {
        None => return None,
        Some(p) => p,
    };
    let trun: &[u8] = match find_inside(traf, &TRUN) {
        None => return None,
        Some(p) => p,
    };
    let table: Trun = match parse_trun(trun) {
        None => return None,
        Some(t) => t,
    };
    let (default_duration, default_size): (Option<u32>, Option<u32>) = match find_inside(
        traf,
        &TFHD,
    ) {
        Some(h) => (parse_tfhd_default_duration(h), parse_tfhd_default_size(h)),
        None => (None, None),
    };
    let (ivs, maps): (Vec<Vec<u8>>, Vec<Vec<SubSample>>) = match find_inside(traf, &SENC) {
        Some(s) => match parse_senc(s, default_iv_size) {
            None => return None,
            Some(r) => r,
        },
        None => (Vec::new(), Vec::new()),
    };
    let mdat: Vec<u8> = match first_mdat(seg) {
        None => return None,
        Some(p) => p,
    };
    let base_media_decode_time: Option<u64> = match find_inside(traf, &TFDT) {
        Some(t) => parse_tfdt(t),
        None => None,
    };
    let ghost senc = SencView { ivs: wire::views(ivs@), maps: map_views(maps@) };
    proof {
        match inside(traf@, SENC@) {
            Some(s) => {},
            None => {
                assert(senc =~= SencView { ivs: Seq::empty(), maps: Seq::empty() });
            },
        }
    }
    let ghost trun_view = table@;
    let sizes: Vec<u32> = fill(table.sizes, table.count, default_size);
    let durations: Vec<u32> = fill(table.durations, table.count, default_duration);
    match build_samples(sizes, durations, table.cts, ivs, maps) {
        None => {
            proof {
                let all = samples_of(trun_view, inside(traf@, TFHD@), senc);
                lemma_total_monotone(sizes@, sizes@.len() as int);
            }
            None
        },
        Some(samples) => {
            let r = ParsedSegment { samples, mdat, base_media_decode_time };
            assert(r@.samples =~= samples_of(trun_view, inside(traf@, TFHD@), senc));
            assert(segment_of(seg@, default_iv_size) =~= Some(r@));
            Some(r)
        },
    }
}

proof fn lemma_total_monotone(sizes: Seq<u32>, n: int)
    requires
        0 <= n <= sizes.len(),
    ensures
        forall|i: int| 0 <= i <= n ==> #[trigger] total(sizes, i) <= total(sizes, n),
        total(sizes, n) >= 0,
    decreases n,
{
    if n > 0 {
        lemma_total_monotone(sizes, n - 1);
    }
}

fn fill(column: Vec<u32>, count: usize, default: Option<u32>) -> (r: Vec<u32>)
    ensures
        r@ == filled(column@, count as nat, default),
{
    if column.len() == 0 && count > 0 {
        if let Some(v) = default {
            let r: Vec<u32> = vec![v; count];
            assert(r@ =~= filled(column@, count as nat, default));
            return r;
        }
    }
    column
}

/// What a list of maps holds.
pub open spec fn map_views(v: Seq<Vec<SubSample>>) -> Seq<Seq<SubSample>> {
    v.map_values(|x: Vec<SubSample>| x@)
}

fn copy_map(v: &Vec<SubSample>) -> (r: Vec<SubSample>)
    ensures
        r@ == v@,
{
    let mut out: Vec<SubSample> = Vec::new();
    for i in 0..v.len()
        invariant
            out@ == v@.take(i as int),
    {
        out.push(v[i]);
        assert(v@.take(i as int + 1) =~= v@.take(i as int).push(v@[i as int]));
    }
    assert(v@.take(v@.len() as int) =~= v@);
    out
}

fn build_samples(
    sizes: Vec<u32>,
    durations: Vec<u32>,
    cts: Vec<i32>,
    ivs: Vec<Vec<u8>>,
    maps: Vec<Vec<SubSample>>,
) -> (r: Option<Vec<SampleInfo>>)
    ensures
        r is None <==> total(sizes@, sizes@.len() as int) > usize::MAX,
        r matches Some(v) ==> {
            &&& v@.len() == sizes@.len()
            &&& forall|i: int|
                0 <= i < v@.len() ==> (#[trigger] v@[i])@ == (SampleView {
                    from: total(sizes@, i),
                    to: total(sizes@, i + 1),
                    duration: if i < durations@.len() {
                        durations@[i]
                    } else {
                        0
                    },
                    cts_offset: if i < cts@.len() {
                        cts@[i]
                    } else {
                        0
                    },
                    iv: if i < ivs@.len() {
                        ivs@[i]@
                    } else {
                        Seq::empty()
                    },
                    subsamples: if i < maps@.len() {
                        maps@[i]@
                    } else {
                        Seq::empty()
                    },
                })
        },
{
    let mut out: Vec<SampleInfo> = Vec::new();
    let mut off: usize = 0;
    let n: usize = sizes.len();
    for i in 0..n
        invariant
            n == sizes@.len(),
            off == total(sizes@, i as int),
            out@.len() == i,
            forall|j: int|
                0 <= j < i ==> (#[trigger] out@[j])@ == (SampleView {
                    from: total(sizes@, j),
                    to: total(sizes@, j + 1),
                    duration: if j < durations@.len() {
                        durations@[j]
                    } else {
                        0
                    },
                    cts_offset: if j < cts@.len() {
                        cts@[j]
                    } else {
                        0
                    },
                    iv: if j < ivs@.len() {
                        ivs@[j]@
                    } else {
                        Seq::empty()
                    },
                    subsamples: if j < maps@.len() {
                        maps@[j]@
                    } else {
                        Seq::empty()
                    },
                }),
    {
        let size: u32 = sizes[i];
        if usize::MAX - off < size as usize {
            proof {
                lemma_total_monotone(sizes@, n as int);
                assert(total(sizes@, i + 1) > usize::MAX);
            }
            return None;
        }
        let duration: u32 = if i < durations.len() {
            durations[i]
        } else {
            0
        };
        let cts_offset: i32 = if i < cts.len() {
            cts[i]
        } else {
            0
        };
        let iv: Vec<u8> = if i < ivs.len() {
            wire::copy(ivs[i].as_slice())
        } else {
            Vec::new()
        };
        let subsamples: Vec<SubSample> = if i < maps.len() {
            copy_map(&maps[i])
        } else {
            Vec::new()
        };
        let end: usize = off + size as usize;
        out.push(SampleInfo { data_range: (off, end), duration, cts_offset, iv, subsamples });
        off = end;
    }
    Some(out)
}

fn first_mdat(seg: &[u8]) -> (r: Option<Vec<u8>>)
    ensures
        match r {
            None => first_of_type(boxes::boxes_from(seg@, 0), MDAT@) is None,
            Some(p) => first_of_type(boxes::boxes_from(seg@, 0), MDAT@) == Some(p@),
        },
{
    let top: Vec<boxes::BoxView> = boxes::iter_boxes(seg);
    let ghost spans = boxes::boxes_from(seg@, 0);
    assert(spans.skip(0) =~= spans);
    for i in 0..top.len()
        invariant
            spans == boxes::boxes_from(seg@, 0),
            top@.len() == spans.len(),
            forall|j: int| 0 <= j < top@.len() ==> (#[trigger] top@[j]).shows(spans[j]),
            first_of_type(spans, MDAT@) == first_of_type(spans.skip(i as int), MDAT@),
    {
        let ghost rest = spans.skip(i as int);
        assert(rest[0] == spans[i as int]);
        assert(top@[i as int].shows(spans[i as int]));
        if boxes::same_type(&top[i].typ, &MDAT) {
            return Some(wire::copy(top[i].payload));
        }
        assert(rest.skip(1) =~= spans.skip(i as int + 1));
    }
    None
}

/// Reads a `tfdt` payload.
pub fn parse_tfdt(tfdt: &[u8]) -> (r: Option<u64>)
    ensures
        r == tfdt_of(tfdt@),
{
    if tfdt.len() == 0 {
        return None;
    }
    if tfdt[0] == 1 {
        if tfdt.len() < 12 {
            return None;
        }
        Some(wire::read_be64(tfdt, 4))
    } else {
        if tfdt.len() < 8 {
            return None;
        }
        Some(wire::read_be32(tfdt, 4) as u64)
    }
}

fn tfhd_defaults(tfhd: &[u8]) -> (r: usize)
    requires
        tfhd.len() >= 8,
    ensures
        r == tfhd_defaults_at(tfhd@),
        r <= 20,
{
    let mut p: usize = 8;
    if tfhd[3] % 2 == 1 {
        p = p + 8;
    }
    if tfhd[3] / 2 % 2 == 1 {
        p = p + 4;
    }
    p
}

fn parse_tfhd_default_duration(tfhd: &[u8]) -> (r: Option<u32>)
    ensures
        r == tfhd_duration(tfhd@),
{
    if tfhd.len() < 8 {
        return None;
    }
    let p: usize = tfhd_defaults(tfhd);
    if tfhd[3] / 8 % 2 == 1 && p + 4 <= tfhd.len() {
        return Some(wire::read_be32(tfhd, p));
    }
    None
}

fn parse_tfhd_default_size(tfhd: &[u8]) -> (r: Option<u32>)
    ensures
        r == tfhd_size(tfhd@),
{
    if tfhd.len() < 8 {
        return None;
    }
    let mut p: usize = tfhd_defaults(tfhd);
    if tfhd[3] / 8 % 2 == 1 {
        p = p + 4;
    }
    if tfhd[3] / 16 % 2 == 1 && p + 4 <= tfhd.len() {
        return Some(wire::read_be32(tfhd, p));
    }
    None
}

struct Trun {
    durations: Vec<u32>,
    sizes: Vec<u32>,
    cts: Vec<i32>,
    count: usize,
}

impl View for Trun {
    type V = TrunView;

    closed spec fn view(&self) -> TrunView {
        TrunView {
            durations: self.durations@,
            sizes: self.sizes@,
            cts: self.cts@,
            count: self.count as nat,
        }
    }
}

fn field(present: bool) -> (r: u64)
    ensures
        r == if present {
            4int
        } else {
            0
        },
{
    if present {
        4
    } else {
        0
    }
}

fn parse_trun(trun: &[u8]) -> (r: Option<Trun>)
    ensures
        match r {
            None => trun_of(trun@) is None,
            Some(t) => trun_of(trun@) == Some(t@),
        },
{
    if trun.len() < 8 {
        return None;
    }
    let ghost l = trun_layout(trun@);
    let len: u64 = trun.len() as u64;
    let count: u64 = wire::read_be32(trun, 4) as u64;
    let has_duration: bool = trun[2] % 2 == 1;
    let has_size: bool = trun[2] / 2 % 2 == 1;
    let has_flags: bool = trun[2] / 4 % 2 == 1;
    let has_cts: bool = trun[2] / 8 % 2 == 1;
    let start: u64 = 8 + field(trun[3] % 2 == 1) + field(trun[3] / 4 % 2 == 1);
    let size_at: u64 = field(has_duration);
    let cts_at: u64 = size_at + field(has_size) + field(has_flags);
    let stride: u64 = cts_at + field(has_cts);
    let used: u64 = if has_cts {
        stride
    } else if has_size {
        size_at + 4
    } else {
        size_at
    };
    assert(l.start == start && l.stride == stride && l.used == used && l.size_at == size_at
        && l.cts_at == cts_at);
    let mut out = Trun {
        durations: Vec::new(),
        sizes: Vec::new(),
        cts: Vec::new(),
        count: count as usize,
    };
    if count > 0 && used > 0 {
        assert((count - 1) * stride <= 0xFFFF_FFFF * 16) by (nonlinear_arith)
            requires
                0 < count <= 0xFFFF_FFFF,
                stride <= 16,
        ;
        if start + (count - 1) * stride + used > len {
            return None;
        }
        let mut at: u64 = start;
        for i in 0..count
            invariant
                len == trun.len(),
                0 < count <= 0xFFFF_FFFF,
                start <= 16,
                stride <= 16,
                0 < used <= stride,
                has_duration ==> 4 <= used && size_at == 4,
                !has_duration ==> size_at == 0,
                has_size ==> size_at + 4 <= used,
                has_cts ==> cts_at + 4 <= used,
                cts_at <= 12,
                start + (count - 1) * stride + used <= len,
                at == start + i * stride,
                out.count == count,
                out.durations@ == column(
                    trun@,
                    start as int,
                    stride as int,
                    if has_duration {
                        i as nat
                    } else {
                        0
                    },
                ),
                out.sizes@ == column(
                    trun@,
                    start + size_at,
                    stride as int,
                    if has_size {
                        i as nat
                    } else {
                        0
                    },
                ),
                out.cts@ == signed_column(
                    trun@,
                    start + cts_at,
                    stride as int,
                    if has_cts {
                        i as nat
                    } else {
                        0
                    },
                ),
        {
            assert(i * stride <= (count - 1) * stride) by (nonlinear_arith)
                requires
                    i <= count - 1,
                    0 <= stride,
            ;
            assert((i + 1) * stride == i * stride + stride) by (nonlinear_arith);
            assert(i * stride <= 0xFFFF_FFFF * 16) by (nonlinear_arith)
                requires
                    0 <= i <= 0xFFFF_FFFF,
                    0 <= stride <= 16,
            ;
            let p: usize = at as usize;
            if has_duration {
                let v: u32 = wire::read_be32(trun, p);
                out.durations.push(v);
            }
            if has_size {
                let v: u32 = wire::read_be32(trun, p + size_at as usize);
                out.sizes.push(v);
            }
            if has_cts {
                let v: i32 = wire::to_signed32(wire::read_be32(trun, p + cts_at as usize));
                out.cts.push(v);
            }
            at = at + stride;
        }
    }
    let ghost all = trun_of(trun@)->0;
    assert(out.durations@ =~= all.durations);
    assert(out.sizes@ =~= all.sizes);
    assert(out.cts@ =~= all.cts);
    Some(out)
}

fn read_map(d: &[u8], p: usize, n: usize) -> (r: (Vec<SubSample>, usize))
    requires
        p <= d.len(),
    ensures
        r.0@ == map_at(d@, p as int, n as nat),
        r.1 == p + 6 * r.0@.len(),
        r.1 <= d.len(),
{
    let len: usize = d.len();
    let mut out: Vec<SubSample> = Vec::new();
    let mut at: usize = p;
    let mut left: usize = n;
    let ghost all = map_at(d@, p as int, n as nat);
    assert(out@ + all =~= all);
    while left > 0 && len - at >= 6
        invariant
            len == d@.len(),
            at <= len,
            at == p + 6 * out@.len(),
            out@ + map_at(d@, at as int, left as nat) == all,
        decreases left,
    {
        let one = SubSample { clear: wire::read_be16(d, at), encrypted: wire::read_be32(d, at + 2) };
        let ghost before = out@;
        out.push(one);
        proof {
            let rest = map_at(d@, at + 6, (left - 1) as nat);
            assert(out@ + rest =~= before + (seq![one] + rest));
        }
        at = at + 6;
        left = left - 1;
    }
    assert(out@ =~= all);
    (out, at)
}

/// Reads a `senc` payload: the IV and the encryption map of each sample.
pub fn parse_senc(senc: &[u8], default_iv_size: Option<u8>) -> (r: Option<
    (Vec<Vec<u8>>, Vec<Vec<SubSample>>),
>)
    ensures
        match r {
            None => senc_of(senc@, default_iv_size) is None,
            Some((ivs, maps)) => senc_of(senc@, default_iv_size) == Some(
                SencView { ivs: wire::views(ivs@), maps: map_views(maps@) },
            ),
        },
{
    let len: usize = senc.len();
    if len < 8 {
        return None;
    }
    let own: bool = senc[3] % 2 == 1;
    let mapped: bool = senc[3] / 2 % 2 == 1;
    let p: usize = if own {
        24
    } else {
        4
    };
    if len < p + 4 {
        return None;
    }
    let count: usize = wire::read_be32(senc, p) as usize;
    let q: usize = p + 4;
    let iv_size: usize = if own {
        senc[7] as usize
    } else {
        match default_iv_size {
            Some(v) => v as usize,
            None => {
                assert(senc@.subrange(q as int, len as int) =~= senc@.skip(q as int));
                match infer_iv_size(vstd::slice::slice_subrange(senc, q, len), count, mapped) {
                    Some(v) => v,
                    None => 8,
                }
            },
        }
    };
    let ghost all = senc_records(senc@, q as int, count as nat, iv_size as int, mapped);
    let mut ivs: Vec<Vec<u8>> = Vec::new();
    let mut maps: Vec<Vec<SubSample>> = Vec::new();
    let mut at: usize = q;
    let mut left: usize = count;
    assert(wire::views(ivs@) + all.ivs =~= all.ivs);
    assert(map_views(maps@) + all.maps =~= all.maps);
    while left > 0 && len - at >= iv_size
        invariant_except_break
            len == senc@.len(),
            at <= len,
            wire::views(ivs@) + senc_records(
                senc@,
                at as int,
                left as nat,
                iv_size as int,
                mapped,
            ).ivs == all.ivs,
            map_views(maps@) + senc_records(
                senc@,
                at as int,
                left as nat,
                iv_size as int,
                mapped,
            ).maps == all.maps,
        ensures
            wire::views(ivs@) == all.ivs,
            map_views(maps@) == all.maps,
        decreases left,
    {
        let ghost ivs0 = ivs@;
        let ghost maps0 = maps@;
        let after: usize = at + iv_size;
        let iv: Vec<u8> = wire::copy(vstd::slice::slice_subrange(senc, at, after));
        ivs.push(iv);
        assert(wire::views(ivs@) =~= wire::views(ivs0).push(iv@));
        if mapped {
            if len - after < 2 {
                assert(wire::views(ivs@) =~= all.ivs);
                assert(map_views(maps@) =~= all.maps);
                break;
            }
            let nsub: usize = wire::read_be16(senc, after) as usize;
            let (map, next): (Vec<SubSample>, usize) = read_map(senc, after + 2, nsub);
            maps.push(map);
            assert(map_views(maps@) =~= map_views(maps0).push(map@));
            proof {
                let rest = senc_records(
                    senc@,
                    next as int,
                    (left - 1) as nat,
                    iv_size as int,
                    mapped,
                );
                assert(wire::views(ivs@) + rest.ivs =~= wire::views(ivs0) + (seq![iv@] + rest.ivs));
                assert(map_views(maps@) + rest.maps =~= map_views(maps0) + (seq![map@]
                    + rest.maps));
            }
            at = next;
        } else {
            let map: Vec<SubSample> = Vec::new();
            maps.push(map);
            assert(map_views(maps@) =~= map_views(maps0).push(Seq::empty()));
            proof {
                let rest = senc_records(
                    senc@,
                    after as int,
                    (left - 1) as nat,
                    iv_size as int,
                    mapped,
                );
                assert(wire::views(ivs@) + rest.ivs =~= wire::views(ivs0) + (seq![iv@] + rest.ivs));
                assert(map_views(maps@) + rest.maps =~= map_views(maps0) + (seq![
                    Seq::<SubSample>::empty(),
                ] + rest.maps));
            }
            at = after;
        }
        left = left - 1;
    }
    Some((ivs, maps))
}

fn infer_iv_size(d: &[u8], count: usize, mapped: bool) -> (r: Option<usize>)
    requires
        count <= u32::MAX,
    ensures
        match r {
            None => inferred_iv_size(d@, count as nat, mapped) is None,
            Some(v) => inferred_iv_size(d@, count as nat, mapped) == Some(v as int),
        },
{
    let avail: u64 = d.len() as u64;
    if !mapped && count > 0 {
        if avail == count as u64 * 8 {
            return Some(8);
        }
        if avail == count as u64 * 16 {
            return Some(16);
        }
        if avail == 0 {
            return Some(0);
        }
    }
    if validate_iv(d, count, 8) {
        return Some(8);
    }
    if validate_iv(d, count, 16) {
        return Some(16);
    }
    None
}

fn validate_iv(d: &[u8], count: usize, iv_size: usize) -> (r: bool)
    requires
        iv_size <= 16,
    ensures
        r == iv_size_fits(d@, 0, count as nat, iv_size as int),
{
    let len: usize = d.len();
    let mut p: usize = 0;
    let mut left: usize = count;
    while left > 0
        invariant
            len == d@.len(),
            p <= len,
            iv_size <= 16,
            iv_size_fits(d@, 0, count as nat, iv_size as int) == iv_size_fits(
                d@,
                p as int,
                left as nat,
                iv_size as int,
            ),
        decreases left,
    {
        if len - p < iv_size + 2 {
            return false;
        }
        let body: usize = wire::read_be16(d, p + iv_size) as usize * 6;
        let after: usize = p + iv_size + 2;
        if len - after < body {
            return false;
        }
        p = after + body;
        left = left - 1;
    }
    p == len
}

} // verus!
