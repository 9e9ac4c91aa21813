//! What init segments carry is read back.

use vstd::prelude::*;

use super::aac;
use super::aac::AacConfig;
use super::avcc;
use super::dvcc;
use super::dvcc::DoviConfig;
use super::hvcc;
use super::mdhd;
use super::tenc;
use crate::text;
use crate::wire;

verus! {

proof fn lemma_be16_in(d: Seq<u8>, p: int, v: int)
    requires
        0 <= p,
        p + 2 <= d.len(),
        0 <= v <= u16::MAX,
        d.subrange(p, p + 2) == wire::be16_bytes(v),
    ensures
        wire::be16_at(d, p) == v,
{
    wire::law_be16_round_trip(v as u16);
    let b = d.subrange(p, p + 2);
    assert(b[0] == d[p] && b[1] == d[p + 1]);
}

/// NAL units from `k` on, each behind its length.
pub open spec fn run_bytes(nals: Seq<Seq<u8>>, k: int) -> Seq<u8>
    decreases nals.len() - k,
{
    if k < 0 || k >= nals.len() {
        Seq::empty()
    } else {
        wire::be16_bytes(nals[k].len() as int) + nals[k] + run_bytes(nals, k + 1)
    }
}

/// Whether the length of each unit can be written.
pub open spec fn run_wf(nals: Seq<Seq<u8>>) -> bool {
    forall|i: int| 0 <= i < nals.len() ==> (#[trigger] nals[i]).len() <= u16::MAX
}

proof fn lemma_run_is_read(d: Seq<u8>, p: int, nals: Seq<Seq<u8>>, k: int)
    requires
        0 <= k <= nals.len(),
        0 <= p,
        run_wf(nals),
        p + run_bytes(nals, k).len() <= d.len(),
        d.subrange(p, p + run_bytes(nals, k).len()) == run_bytes(nals, k),
    ensures
        ({
            let r = hvcc::nal_run(d, p, (nals.len() - k) as nat);
            r.nals == nals.skip(k) && r.whole && r.next == p + run_bytes(nals, k).len()
        }),
    decreases nals.len() - k,
{
    if k < nals.len() {
        let one = nals[k];
        let rest = run_bytes(nals, k + 1);
        let all = run_bytes(nals, k);
        let own = d.subrange(p, p + all.len());
        let n = one.len() as int;
        assert(all == wire::be16_bytes(n) + one + rest);
        assert(own.subrange(0, 2) =~= wire::be16_bytes(n));
        assert(d.subrange(p, p + 2) =~= own.subrange(0, 2));
        lemma_be16_in(d, p, n);
        assert(d.subrange(p + 2, p + 2 + n) =~= own.subrange(2, 2 + n));
        assert(own.subrange(2, 2 + n) =~= one);
        assert(d.subrange(p + 2 + n, p + 2 + n + rest.len()) =~= own.skip(2 + n));
        assert(own.skip(2 + n) =~= rest);
        lemma_run_is_read(d, p + 2 + n, nals, k + 1);
        assert(nals.skip(k) =~= seq![one] + nals.skip(k + 1));
    } else {
        assert(nals.skip(k) =~= Seq::<Seq<u8>>::empty());
    }
}

/// An array of an `hvcC`: its units are of one type.
pub struct NalArray {
    pub complete: bool,
    pub nal_type: u8,
    pub nals: Seq<Seq<u8>>,
}

/// The arrays from `k` on: completeness and type, the number of units, the units.
pub open spec fn array_bytes(a: Seq<NalArray>, k: int) -> Seq<u8>
    decreases a.len() - k,
{
    if k < 0 || k >= a.len() {
        Seq::empty()
    } else {
        seq![
            (a[k].nal_type + if a[k].complete {
                128int
            } else {
                0
            }) as u8,
        ] + wire::be16_bytes(a[k].nals.len() as int) + run_bytes(a[k].nals, 0) + array_bytes(a, k + 1)
    }
}

/// The units of the arrays of a type from `k` on, in their order.
pub open spec fn units_of_type(a: Seq<NalArray>, k: int, nal_type: u8) -> Seq<Seq<u8>>
    decreases a.len() - k,
{
    if k < 0 || k >= a.len() {
        Seq::empty()
    } else {
        (if a[k].nal_type == nal_type {
            a[k].nals
        } else {
            Seq::empty()
        }) + units_of_type(a, k + 1, nal_type)
    }
}

/// Whether arrays can be written.
pub open spec fn arrays_wf(a: Seq<NalArray>) -> bool {
    &&& a.len() <= 255
    &&& forall|i: int|
        0 <= i < a.len() ==> (#[trigger] a[i]).nal_type < 64 && a[i].nals.len() <= u16::MAX
            && run_wf(a[i].nals)
}

proof fn lemma_arrays_are_read(d: Seq<u8>, p: int, a: Seq<NalArray>, k: int, t: u8)
    requires
        0 <= k <= a.len(),
        0 <= p <= d.len(),
        arrays_wf(a),
        d.skip(p) == array_bytes(a, k),
    ensures
        hvcc::nals_of_type(d, p, (a.len() - k) as nat, t as int) == units_of_type(a, k, t),
    decreases a.len() - k,
{
    if k < a.len() {
        let x = a[k];
        assert(x.nal_type < 64 && x.nals.len() <= u16::MAX && run_wf(x.nals));
        let run = run_bytes(x.nals, 0);
        let rest = array_bytes(a, k + 1);
        let own = d.skip(p);
        let first = (x.nal_type + if x.complete {
            128int
        } else {
            0
        }) as u8;
        assert(own == seq![first] + wire::be16_bytes(x.nals.len() as int) + run + rest);
        assert(own.len() == d.len() - p);
        assert(own[0] == d[p]);
        assert(own.subrange(1, 3) =~= wire::be16_bytes(x.nals.len() as int));
        assert(d.subrange(p + 1, p + 3) =~= own.subrange(1, 3));
        lemma_be16_in(d, p + 1, x.nals.len() as int);
        let q = p + 3 + run.len();
        assert(d.subrange(p + 3, q) =~= own.subrange(3, 3 + run.len() as int));
        assert(own.subrange(3, 3 + run.len() as int) =~= run);
        lemma_run_is_read(d, p + 3, x.nals, 0);
        assert(x.nals.skip(0) =~= x.nals);
        assert(d.skip(q) =~= own.skip(3 + run.len() as int));
        assert(own.skip(3 + run.len() as int) =~= rest);
        lemma_arrays_are_read(d, q, a, k + 1, t);
        assert(first as int % 64 == x.nal_type);
    }
}

/// The parameter sets of an `hvcC` are read back by their NAL types: VPS, SPS and PPS each in their
/// order, and nothing of other arrays.
pub proof fn law_hvcc_is_read_back(header: Seq<u8>, a: Seq<NalArray>)
    requires
        header.len() == 22,
        arrays_wf(a),
    ensures
        hvcc::hvcc_of(header + seq![a.len() as u8] + array_bytes(a, 0)) == Some(
            hvcc::ParamSetsView {
                vps: units_of_type(a, 0, 32),
                sps: units_of_type(a, 0, 33),
                pps: units_of_type(a, 0, 34),
            },
        ),
{
    let d = header + seq![a.len() as u8] + array_bytes(a, 0);
    assert(d[22] == a.len() as u8);
    assert(d.skip(23) =~= array_bytes(a, 0));
    lemma_arrays_are_read(d, 23, a, 0, 32);
    lemma_arrays_are_read(d, 23, a, 0, 33);
    lemma_arrays_are_read(d, 23, a, 0, 34);
}

/// The parameter sets of an `avcC` are read back: those of the sequence, then those of the
/// pictures.
pub proof fn law_avcc_is_read_back(header: Seq<u8>, sps: Seq<Seq<u8>>, pps: Seq<Seq<u8>>)
    requires
        header.len() == 5,
        sps.len() < 32,
        pps.len() <= 255,
        run_wf(sps),
        run_wf(pps),
    ensures
        avcc::avcc_of(
            header + seq![(0xE0 + sps.len()) as u8] + run_bytes(sps, 0) + seq![pps.len() as u8]
                + run_bytes(pps, 0),
        ) == Some(hvcc::ParamSetsView { vps: Seq::empty(), sps, pps }),
{
    let a = run_bytes(sps, 0);
    let b = run_bytes(pps, 0);
    let d = header + seq![(0xE0 + sps.len()) as u8] + a + seq![pps.len() as u8] + b;
    assert(d[5] == (0xE0 + sps.len()) as u8);
    assert(d[5] as int % 32 == sps.len());
    assert(d.subrange(6, 6 + a.len() as int) =~= a);
    lemma_run_is_read(d, 6, sps, 0);
    assert(sps.skip(0) =~= sps);
    let q = 6 + a.len() as int;
    assert(d[q] == pps.len() as u8);
    assert(d.subrange(q + 1, q + 1 + b.len()) =~= b);
    lemma_run_is_read(d, q + 1, pps, 0);
    assert(pps.skip(0) =~= pps);
}

/// A Dolby Vision configuration is read back from its bits: 7 of the profile, 6 of the level, the
/// three flags, 4 of the compatibility.
pub proof fn law_dovi_is_read_back(c: DoviConfig, low: u8, rest: Seq<u8>)
    requires
        c.fits(),
        low < 16,
    ensures
        dvcc::parsed(
            seq![
                c.version_major,
                c.version_minor,
                (c.profile * 2 + c.level / 32) as u8,
                (c.level % 32 * 8 + (if c.rpu_present {
                    4int
                } else {
                    0
                }) + (if c.el_present {
                    2int
                } else {
                    0
                }) + (if c.bl_present {
                    1int
                } else {
                    0
                })) as u8,
                (c.bl_compatibility_id * 16 + low) as u8,
            ] + rest,
        ) == Some(c),
{
}

/// A timescale is read back from an `mdhd` of either version.
pub proof fn law_timescale_is_read_back(head: Seq<u8>, timescale: u32, rest: Seq<u8>)
    requires
        (head.len() == 12 && head[0] == 0) || (head.len() == 20 && head[0] == 1),
    ensures
        mdhd::mdhd_timescale(head + wire::be32_bytes(timescale as int) + rest) == Some(timescale),
{
    let d = head + wire::be32_bytes(timescale as int) + rest;
    let b = wire::be32_bytes(timescale as int);
    let p = head.len() as int;
    wire::law_be32_round_trip(timescale);
    assert(d[p] == b[0] && d[p + 1] == b[1] && d[p + 2] == b[2] && d[p + 3] == b[3]);
    assert(d[0] == head[0]);
}

/// The track encryption is read back from a `tenc`: whether samples are protected, the size of
/// their IVs, the key, the pattern where the version has one, and the constant IV where samples
/// have none of their own.
pub proof fn law_tenc_is_read_back(
    version: u8,
    crypt: u8,
    skip: u8,
    protected: bool,
    iv_size: u8,
    kid: Seq<u8>,
    constant_iv: Seq<u8>,
)
    requires
        crypt < 16,
        skip < 16,
        kid.len() == 16,
        iv_size == 0 ==> constant_iv.len() == 16,
        iv_size != 0 ==> constant_iv.len() == 0,
    ensures
        ({
            let t = tenc::tenc_of(
                seq![
                    version,
                    0u8,
                    0u8,
                    0u8,
                    0u8,
                    (crypt * 16 + skip) as u8,
                    if protected {
                        1u8
                    } else {
                        0u8
                    },
                    iv_size,
                ] + kid + (if iv_size == 0 {
                    seq![16u8] + constant_iv
                } else {
                    Seq::empty()
                }),
            );
            &&& t is Some
            &&& t->0.is_protected == protected
            &&& t->0.iv_size == iv_size
            &&& t->0.kid == text::hex_lower(kid)
            &&& version > 0 ==> t->0.crypt_byte_block == crypt && t->0.skip_byte_block == skip
            &&& version == 0 ==> t->0.crypt_byte_block == 0 && t->0.skip_byte_block == 0
            &&& iv_size == 0 ==> t->0.constant_iv == Some(constant_iv)
            &&& iv_size != 0 ==> t->0.constant_iv is None
        }),
{
    let front = seq![
        version,
        0u8,
        0u8,
        0u8,
        0u8,
        (crypt * 16 + skip) as u8,
        if protected {
            1u8
        } else {
            0u8
        },
        iv_size,
    ];
    let tail = if iv_size == 0 {
        seq![16u8] + constant_iv
    } else {
        Seq::empty()
    };
    let d = front + kid + tail;
    assert(d.subrange(8, 24) =~= kid);
    if iv_size == 0 {
        assert(d[24] == 16);
        assert(d.subrange(25, 41) =~= constant_iv);
    }
}

/// An AAC configuration is read back from its bits: 5 of the object type, 4 of the rate, 4 of the
/// channels.
pub proof fn law_aac_is_read_back(c: AacConfig, low: u8, rest: Seq<u8>)
    requires
        c.object_type < 32,
        c.freq_index < 16,
        c.channel_config < 16,
        low < 8,
    ensures
        aac::asc_of(
            seq![
                (c.object_type * 8 + c.freq_index / 2) as u8,
                (c.freq_index % 2 * 128 + c.channel_config * 8 + low) as u8,
            ] + rest,
        ) == Some(c),
{
}

/// The configuration in an `esds` is found behind its tag, whatever descriptors stand before it, as
/// long as none of their bytes looks like the tag.
pub proof fn law_esds_holds_configuration(head: Seq<u8>, asc: Seq<u8>, rest: Seq<u8>, i: int)
    requires
        2 <= asc.len() < 128,
        0 <= i <= head.len(),
        forall|j: int| i <= j < head.len() ==> #[trigger] head[j] != 5,
    ensures
        aac::asc_in_esds(head + seq![5u8, asc.len() as u8] + asc + rest, i) == Some(asc),
        aac::asc_in_esds(
            head + seq![5u8, 0x80u8, 0x80u8, 0x80u8, asc.len() as u8] + asc + rest,
            i,
        ) == Some(asc),
    decreases head.len() - i,
{
    let short = head + seq![5u8, asc.len() as u8] + asc + rest;
    let long = head + seq![5u8, 0x80u8, 0x80u8, 0x80u8, asc.len() as u8] + asc + rest;
    let n = head.len() as int;
    if i < n {
        assert(short[i] == head[i] && long[i] == head[i]);
        law_esds_holds_configuration(head, asc, rest, i + 1);
    } else {
        reveal_with_fuel(aac::expandable_size, 5);
        assert(short[n] == 5 && short[n + 1] == asc.len());
        assert(short.subrange(n + 2, n + 2 + asc.len()) =~= asc);
        assert(long[n] == 5 && long[n + 1] == 0x80 && long[n + 2] == 0x80 && long[n + 3] == 0x80
            && long[n + 4] == asc.len());
        assert(long.subrange(n + 5, n + 5 + asc.len()) =~= asc);
    }
}

} // verus!
