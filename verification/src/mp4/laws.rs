//! Boxes that are written are read back.

use vstd::prelude::*;

use super::boxes;
use super::boxes::BoxSpan;
use super::sample;
use super::sample::{SencView, SubSample, TrunView};
use crate::wire;

verus! {

/// A box to be written.
pub struct PlainBox {
    pub typ: Seq<u8>,
    pub payload: Seq<u8>,
}

impl PlainBox {
    /// A type has four bytes, and the length fits in four.
    pub open spec fn wf(self) -> bool {
        self.typ.len() == 4 && self.payload.len() + 8 <= u32::MAX
    }

    /// Length, type and payload.
    #[verifier::opaque]
    pub open spec fn bytes(self) -> Seq<u8> {
        wire::be32_bytes(8 + self.payload.len() as int) + self.typ + self.payload
    }
}

/// Boxes one behind the other.
pub open spec fn box_run(b: Seq<PlainBox>) -> Seq<u8>
    decreases b.len(),
{
    if b.len() == 0 {
        Seq::empty()
    } else {
        b[0].bytes() + box_run(b.skip(1))
    }
}

/// Whether all of the boxes can be written.
pub open spec fn all_wf(b: Seq<PlainBox>) -> bool {
    forall|i: int| 0 <= i < b.len() ==> (#[trigger] b[i]).wf()
}

/// A number that stands somewhere is read there.
proof fn lemma_be32_in(d: Seq<u8>, p: int, v: int)
    requires
        0 <= p,
        p + 4 <= d.len(),
        0 <= v <= u32::MAX,
        d.subrange(p, p + 4) == wire::be32_bytes(v),
    ensures
        wire::be32_at(d, p) == v,
{
    wire::law_be32_round_trip(v as u32);
    let b = d.subrange(p, p + 4);
    assert(b[0] == d[p] && b[1] == d[p + 1] && b[2] == d[p + 2] && b[3] == d[p + 3]);
}

proof fn lemma_be16_in(d: Seq<u8>, p: int, v: int)
    requires
        0 <= p,
        p + 2 <= d.len(),
        0 <= v <= u16::MAX,
        d.subrange(p, p + 2) == wire::be16_bytes(v),
    ensures
        wire::be16_at(d, p) == v,
{
    wire::law_be16_round_trip(v as u16);
    let b = d.subrange(p, p + 2);
    assert(b[0] == d[p] && b[1] == d[p + 1]);
}

proof fn lemma_box_at(pre: Seq<u8>, b: PlainBox, post: Seq<u8>)
    requires
        b.wf(),
    ensures
        b.bytes().len() == 8 + b.payload.len(),
        boxes::box_at(pre + b.bytes() + post, pre.len() as int) == Some(
            BoxSpan {
                typ: b.typ,
                payload: b.payload,
                total: 8 + b.payload.len() as int,
                closes: false,
            },
        ),
{
    reveal(PlainBox::bytes);
    let d = pre + b.bytes() + post;
    let p = pre.len() as int;
    let n = 8 + b.payload.len() as int;
    assert(b.bytes().len() == n);
    assert(d.subrange(p, p + 4) =~= wire::be32_bytes(n));
    lemma_be32_in(d, p, n);
    assert(d.subrange(p + 4, p + 8) =~= b.typ);
    assert(d.subrange(p + 8, p + n) =~= b.payload);
}

/// Where written boxes lie.
pub open spec fn spans(b: Seq<PlainBox>) -> Seq<BoxSpan> {
    b.map_values(
        |x: PlainBox|
            BoxSpan {
                typ: x.typ,
                payload: x.payload,
                total: 8 + x.payload.len() as int,
                closes: false,
            },
    )
}

proof fn lemma_run_is_read(pre: Seq<u8>, b: Seq<PlainBox>)
    requires
        all_wf(b),
    ensures
        boxes::boxes_from(pre + box_run(b), pre.len() as int) == spans(b),
    decreases b.len(),
{
    let d = pre + box_run(b);
    if b.len() > 0 {
        let r = b.skip(1);
        assert(d =~= pre + b[0].bytes() + box_run(r));
        lemma_box_at(pre, b[0], box_run(r));
        assert forall|i: int| 0 <= i < r.len() implies (#[trigger] r[i]).wf() by {
            assert(r[i] == b[i + 1]);
        }
        let next = pre + b[0].bytes();
        lemma_run_is_read(next, r);
        assert(next + box_run(r) =~= d);
        assert(next.len() == pre.len() + 8 + b[0].payload.len());
        assert(spans(b) =~= seq![spans(b)[0]] + spans(r));
    } else {
        assert(spans(b) =~= Seq::<BoxSpan>::empty());
    }
}

/// Boxes that are written one behind the other are read back, with their types and payloads.
pub proof fn law_boxes_are_read_back(b: Seq<PlainBox>)
    requires
        all_wf(b),
    ensures
        boxes::boxes_from(box_run(b), 0) == spans(b),
{
    lemma_run_is_read(Seq::empty(), b);
    assert(Seq::<u8>::empty() + box_run(b) =~= box_run(b));
}

/// Whether the search for a type passes over a box: it is of another type, and the type is not
/// found inside of it.
pub open spec fn passed_over(b: PlainBox, target: Seq<u8>, containers: Seq<[u8; 4]>) -> bool {
    &&& b.typ != target
    &&& boxes::is_container(containers, b.typ) ==> boxes::find_from(
        b.payload,
        0,
        target,
        containers,
    ) is None
}

proof fn lemma_find_in_run(
    pre: Seq<u8>,
    b: Seq<PlainBox>,
    target: Seq<u8>,
    containers: Seq<[u8; 4]>,
    i: int,
)
    requires
        all_wf(b),
        0 <= i <= b.len(),
        forall|j: int| 0 <= j < i ==> passed_over(#[trigger] b[j], target, containers),
        i < b.len() ==> !passed_over(b[i], target, containers),
    ensures
        boxes::find_from(pre + box_run(b), pre.len() as int, target, containers) == if i
            == b.len() {
            None
        } else if b[i].typ == target {
            Some(b[i].payload)
        } else {
            boxes::find_from(b[i].payload, 0, target, containers)
        },
    decreases b.len(),
{
    let d = pre + box_run(b);
    if b.len() > 0 {
        let r = b.skip(1);
        assert(d =~= pre + b[0].bytes() + box_run(r));
        lemma_box_at(pre, b[0], box_run(r));
        if i > 0 {
            assert(passed_over(b[0], target, containers));
            assert forall|j: int| 0 <= j < r.len() implies (#[trigger] r[j]).wf() by {
                assert(r[j] == b[j + 1]);
            }
            assert forall|j: int| 0 <= j < i - 1 implies passed_over(#[trigger] r[j], target, containers) by {
                assert(r[j] == b[j + 1]);
            }
            if i < b.len() {
                assert(r[i - 1] == b[i]);
            }
            let next = pre + b[0].bytes();
            lemma_find_in_run(next, r, target, containers, i - 1);
            assert(next + box_run(r) =~= d);
            assert(next.len() == pre.len() + 8 + b[0].payload.len());
        }
    }
}

/// Of boxes that are written one behind the other the first of a type is found, as long as no
/// container before it holds one; inside of the first container that holds one; or else none is.
pub proof fn law_first_box_is_found(
    b: Seq<PlainBox>,
    target: Seq<u8>,
    containers: Seq<[u8; 4]>,
    i: int,
)
    requires
        all_wf(b),
        0 <= i <= b.len(),
        forall|j: int| 0 <= j < i ==> passed_over(#[trigger] b[j], target, containers),
        i < b.len() ==> !passed_over(b[i], target, containers),
    ensures
        boxes::find_from(box_run(b), 0, target, containers) == if i == b.len() {
            None
        } else if b[i].typ == target {
            Some(b[i].payload)
        } else {
            boxes::find_from(b[i].payload, 0, target, containers)
        },
{
    lemma_find_in_run(Seq::empty(), b, target, containers, i);
    assert(Seq::<u8>::empty() + box_run(b) =~= box_run(b));
}

/// The bytes of a field that may be missing.
pub open spec fn optional(present: bool, v: u32) -> Seq<u8> {
    if present {
        wire::be32_bytes(v as int)
    } else {
        Seq::empty()
    }
}

/// The flag that says so.
pub open spec fn flag(present: bool, v: int) -> int {
    if present {
        v
    } else {
        0
    }
}

/// What a `trun` says of one sample.
pub struct TrunRecord {
    pub duration: u32,
    pub size: u32,
    pub flags: u32,
    pub cts: i32,
}

/// A `trun` to be written: which of its fields it has, and what they hold.
pub struct PlainTrun {
    pub version: u8,
    pub has_offset: bool,
    pub has_first_flags: bool,
    pub has_duration: bool,
    pub has_size: bool,
    pub has_flags: bool,
    pub has_cts: bool,
    pub offset: u32,
    pub first_flags: u32,
    pub records: Seq<TrunRecord>,
}

impl PlainTrun {
    /// The fields of a sample in their order: duration, size, flags, composition offset.
    pub open spec fn record(self, i: int) -> Seq<u8> {
        let r = self.records[i];
        optional(self.has_duration, r.duration) + optional(self.has_size, r.size) + optional(
            self.has_flags,
            r.flags,
        ) + optional(
            self.has_cts,
            if r.cts < 0 {
                (r.cts + 0x1_0000_0000) as u32
            } else {
                r.cts as u32
            },
        )
    }

    /// The first `n` records.
    pub open spec fn table(self, n: int) -> Seq<u8>
        decreases n,
    {
        if n <= 0 {
            Seq::empty()
        } else {
            self.table(n - 1) + self.record(n - 1)
        }
    }

    /// Version and flags, the number of samples, the two fields of the whole run, the records.
    pub open spec fn head(self) -> Seq<u8> {
        seq![
            self.version,
            0u8,
            (flag(self.has_duration, 1) + flag(self.has_size, 2) + flag(self.has_flags, 4) + flag(
                self.has_cts,
                8,
            )) as u8,
            (flag(self.has_offset, 1) + flag(self.has_first_flags, 4)) as u8,
        ] + wire::be32_bytes(self.records.len() as int) + optional(self.has_offset, self.offset)
            + optional(self.has_first_flags, self.first_flags)
    }

    #[verifier::opaque]
    pub open spec fn payload(self) -> Seq<u8> {
        self.head() + self.table(self.records.len() as int)
    }

    /// How long a record is.
    pub open spec fn width(self) -> int {
        flag(self.has_duration, 4) + flag(self.has_size, 4) + flag(self.has_flags, 4) + flag(
            self.has_cts,
            4,
        )
    }
}

proof fn lemma_table_length(t: PlainTrun, n: int)
    requires
        0 <= n,
    ensures
        t.table(n).len() == n * t.width(),
    decreases n,
{
    if n > 0 {
        lemma_table_length(t, n - 1);
        assert(t.record(n - 1).len() == t.width());
        assert(n * t.width() == (n - 1) * t.width() + t.width()) by (nonlinear_arith);
    } else {
        assert(0 * t.width() == 0) by (nonlinear_arith);
    }
}

proof fn lemma_table_record(t: PlainTrun, n: int, i: int)
    requires
        0 <= i < n,
    ensures
        t.table(n).len() == n * t.width(),
        (i + 1) * t.width() == i * t.width() + t.width(),
        0 <= i * t.width(),
        (i + 1) * t.width() <= n * t.width(),
        t.table(n).subrange(i * t.width(), i * t.width() + t.width()) == t.record(i),
    decreases n,
{
    let w = t.width();
    lemma_table_length(t, n);
    lemma_table_length(t, n - 1);
    assert((i + 1) * w == i * w + w) by (nonlinear_arith);
    assert(0 <= i * w) by (nonlinear_arith)
        requires
            0 <= i,
            0 <= w,
    ;
    assert((i + 1) * w <= n * w) by (nonlinear_arith)
        requires
            i + 1 <= n,
            0 <= w,
    ;
    assert(t.record(n - 1).len() == w);
    let a = t.table(n);
    if i < n - 1 {
        lemma_table_record(t, n - 1, i);
        assert(a.subrange(i * w, i * w + w) =~= t.table(n - 1).subrange(i * w, i * w + w));
    } else {
        assert(a.subrange(i * w, i * w + w) =~= t.record(i));
    }
}

/// The fields of a record, counted from its start.
proof fn lemma_record(t: PlainTrun, i: int)
    ensures
        ({
            let one = t.record(i);
            let r = t.records[i];
            let s = flag(t.has_duration, 4);
            let c = s + flag(t.has_size, 4) + flag(t.has_flags, 4);
            &&& one.len() == t.width()
            &&& t.has_duration ==> wire::be32_at(one, 0) == r.duration
            &&& t.has_size ==> wire::be32_at(one, s) == r.size
            &&& t.has_cts ==> wire::signed32(wire::be32_at(one, c)) == r.cts
        }),
{
    let one = t.record(i);
    let r = t.records[i];
    let v = if r.cts < 0 {
        r.cts + 0x1_0000_0000
    } else {
        r.cts as int
    };
    let w = optional(t.has_duration, r.duration);
    let x = optional(t.has_size, r.size);
    let y = optional(t.has_flags, r.flags);
    let z = optional(t.has_cts, v as u32);
    assert(one == w + x + y + z);
    let s = w.len() as int;
    let c = s + x.len() + y.len();
    if t.has_duration {
        assert(one.subrange(0, 4) =~= w);
        lemma_be32_in(one, 0, r.duration as int);
    }
    if t.has_size {
        assert(one.subrange(s, s + 4) =~= x);
        lemma_be32_in(one, s, r.size as int);
    }
    if t.has_cts {
        assert(one.subrange(c, c + 4) =~= z);
        lemma_be32_in(one, c, v);
    }
}

proof fn lemma_be32_within(d: Seq<u8>, p: int, one: Seq<u8>, k: int)
    requires
        0 <= p,
        0 <= k,
        k + 4 <= one.len(),
        p + one.len() <= d.len(),
        d.subrange(p, p + one.len()) == one,
    ensures
        wire::be32_at(d, p + k) == wire::be32_at(one, k),
{
    let s = d.subrange(p, p + one.len());
    assert(s[k] == d[p + k] && s[k + 1] == d[p + k + 1] && s[k + 2] == d[p + k + 2] && s[k + 3]
        == d[p + k + 3]);
}

/// The fields of record `i` are where the reader looks.
proof fn lemma_record_fields(t: PlainTrun, i: int)
    requires
        0 <= i < t.records.len(),
    ensures
        ({
            let d = t.payload();
            let p = t.head().len() + i * t.width();
            let r = t.records[i];
            let s = flag(t.has_duration, 4);
            let c = s + flag(t.has_size, 4) + flag(t.has_flags, 4);
            &&& 0 <= p
            &&& p + t.width() <= d.len()
            &&& t.has_duration ==> wire::be32_at(d, p) == r.duration
            &&& t.has_size ==> wire::be32_at(d, p + s) == r.size
            &&& t.has_cts ==> wire::signed32(wire::be32_at(d, p + c)) == r.cts
        }),
{
    reveal(PlainTrun::payload);
    let n = t.records.len() as int;
    let head = t.head();
    let table = t.table(n);
    let d = t.payload();
    let w = t.width();
    let p = head.len() + i * w;
    lemma_table_record(t, n, i);
    lemma_record(t, i);
    let one = t.record(i);
    assert(d == head + table);
    assert(d.subrange(p, p + w) =~= table.subrange(i * w, i * w + w));
    let s = flag(t.has_duration, 4);
    let c = s + flag(t.has_size, 4) + flag(t.has_flags, 4);
    if t.has_duration {
        lemma_be32_within(d, p, one, 0);
    }
    if t.has_size {
        lemma_be32_within(d, p, one, s);
    }
    if t.has_cts {
        lemma_be32_within(d, p, one, c);
    }
}

/// Flags that are added up are told apart.
proof fn lemma_flags(a: bool, b: bool, c: bool, d: bool, e: bool, f: bool)
    ensures
        ({
            let v = flag(a, 1) + flag(b, 2) + flag(c, 4) + flag(d, 8) + flag(e, 16) + flag(f, 32);
            &&& 0 <= v < 64
            &&& v % 2 == 1 <==> a
            &&& v / 2 % 2 == 1 <==> b
            &&& v / 4 % 2 == 1 <==> c
            &&& v / 8 % 2 == 1 <==> d
            &&& v / 16 % 2 == 1 <==> e
        }),
{
}

proof fn lemma_trun_layout(t: PlainTrun, d: Seq<u8>)
    requires
        t.records.len() <= u32::MAX,
        t.head().is_prefix_of(d),
    ensures
        wire::be32_at(d, 4) == t.records.len(),
        ({
            let l = sample::trun_layout(d);
            &&& l.has_duration == t.has_duration
            &&& l.has_size == t.has_size
            &&& l.has_cts == t.has_cts
            &&& l.stride == t.width()
            &&& l.start == t.head().len()
            &&& l.used <= l.stride
            &&& l.size_at == flag(t.has_duration, 4)
            &&& l.cts_at == l.size_at + flag(t.has_size, 4) + flag(t.has_flags, 4)
        }),
{
    let h = t.head();
    let n = t.records.len() as int;
    assert forall|i: int| 0 <= i < h.len() implies d[i] == h[i] by {
        assert(d.subrange(0, h.len() as int)[i] == d[i]);
    }
    assert(h.subrange(4, 8) =~= wire::be32_bytes(n));
    assert(d.subrange(4, 8) =~= h.subrange(4, 8));
    lemma_be32_in(d, 4, n);
    lemma_flags(t.has_duration, t.has_size, t.has_flags, t.has_cts, false, false);
    lemma_flags(t.has_offset, false, t.has_first_flags, false, false, false);
    assert(d[2] as int == flag(t.has_duration, 1) + flag(t.has_size, 2) + flag(t.has_flags, 4)
        + flag(t.has_cts, 8));
    assert(d[3] as int == flag(t.has_offset, 1) + flag(t.has_first_flags, 4));
}

/// A `trun` with any choice of its fields is read back: the durations, sizes and composition
/// offsets that it has, for as many samples as it counts.
pub proof fn law_trun_is_read_back(t: PlainTrun)
    requires
        t.records.len() <= u32::MAX,
    ensures
        sample::trun_of(t.payload()) == Some(
            TrunView {
                durations: if t.has_duration {
                    t.records.map_values(|r: TrunRecord| r.duration)
                } else {
                    Seq::empty()
                },
                sizes: if t.has_size {
                    t.records.map_values(|r: TrunRecord| r.size)
                } else {
                    Seq::empty()
                },
                cts: if t.has_cts {
                    t.records.map_values(|r: TrunRecord| r.cts)
                } else {
                    Seq::empty()
                },
                count: t.records.len(),
            },
        ),
{
    reveal(PlainTrun::payload);
    let d = t.payload();
    let n = t.records.len() as int;
    let w = t.width();
    lemma_table_length(t, n);
    assert(d.subrange(0, t.head().len() as int) =~= t.head());
    lemma_trun_layout(t, d);
    let l = sample::trun_layout(d);
    if n > 0 {
        assert((n - 1) * w + w == n * w) by (nonlinear_arith);
    }
    let r = sample::trun_of(d)->0;
    assert forall|i: int| 0 <= i < n implies (t.has_duration ==> r.durations[i]
        == t.records[i].duration) && (t.has_size ==> r.sizes[i] == t.records[i].size) && (t.has_cts
        ==> r.cts[i] == t.records[i].cts) by {
        lemma_record_fields(t, i);
        assert(i * l.stride == i * w);
    }
    if t.has_duration {
        assert(r.durations =~= t.records.map_values(|r: TrunRecord| r.duration));
    } else {
        assert(r.durations =~= Seq::<u32>::empty());
    }
    if t.has_size {
        assert(r.sizes =~= t.records.map_values(|r: TrunRecord| r.size));
    } else {
        assert(r.sizes =~= Seq::<u32>::empty());
    }
    if t.has_cts {
        assert(r.cts =~= t.records.map_values(|r: TrunRecord| r.cts));
    } else {
        assert(r.cts =~= Seq::<i32>::empty());
    }
}

/// A `trun` whose records are cut off is not read.
pub proof fn law_cut_trun_is_refused(t: PlainTrun, n: int)
    requires
        0 < t.records.len() <= u32::MAX,
        t.has_cts || t.has_size && !t.has_flags || t.has_duration && !t.has_size && !t.has_flags,
        0 <= n < t.payload().len(),
    ensures
        sample::trun_of(t.payload().take(n)) is None,
{
    reveal(PlainTrun::payload);
    let d = t.payload();
    let c = d.take(n);
    let k = t.records.len() as int;
    lemma_table_length(t, k);
    assert((k - 1) * t.width() + t.width() == k * t.width()) by (nonlinear_arith);
    if n >= 8 {
        assert(d.subrange(0, t.head().len() as int) =~= t.head());
        lemma_trun_layout(t, d);
        assert(c.subrange(4, 8) =~= d.subrange(4, 8));
        assert(wire::be32_at(c, 4) == wire::be32_at(d, 4));
        assert(c[2] == d[2] && c[3] == d[3]);
        assert(sample::trun_layout(c) == sample::trun_layout(d));
        assert(sample::trun_layout(c).used == t.width());
    }
}

/// A `tfhd` to be written.
pub struct PlainTfhd {
    pub track: u32,
    pub base_offset: Option<u64>,
    pub description: Option<u32>,
    pub duration: Option<u32>,
    pub size: Option<u32>,
    pub sample_flags: Option<u32>,
}

impl PlainTfhd {
    /// Flags, the track, and the fields that there are in their order: base data offset, sample
    /// description, default duration, size and flags.
    #[verifier::opaque]
    pub open spec fn payload(self) -> Seq<u8> {
        let opt = |v: Option<u32>| optional(v is Some, v->0);
        seq![
            0u8,
            0u8,
            0u8,
            (flag(self.base_offset is Some, 1) + flag(self.description is Some, 2) + flag(
                self.duration is Some,
                8,
            ) + flag(self.size is Some, 16) + flag(self.sample_flags is Some, 32)) as u8,
        ] + wire::be32_bytes(self.track as int) + optional(
            self.base_offset is Some,
            (self.base_offset->0 / 0x1_0000_0000) as u32,
        ) + optional(self.base_offset is Some, (self.base_offset->0 % 0x1_0000_0000) as u32) + opt(self.description) + opt(
            self.duration,
        ) + opt(self.size) + opt(self.sample_flags)
    }
}

/// The default duration and size of a `tfhd` are read back, whichever of its other fields it has.
pub proof fn law_tfhd_is_read_back(h: PlainTfhd)
    ensures
        sample::tfhd_duration(h.payload()) == h.duration,
        sample::tfhd_size(h.payload()) == h.size,
{
    reveal(PlainTfhd::payload);
    let d = h.payload();
    let (has_base, has_description) = (h.base_offset is Some, h.description is Some);
    let (has_duration, has_size) = (h.duration is Some, h.size is Some);
    lemma_flags(has_base, has_description, false, has_duration, has_size, h.sample_flags is Some);
    let front = seq![0u8, 0u8, 0u8, d[3]] + wire::be32_bytes(h.track as int) + optional(
        has_base,
        (h.base_offset->0 / 0x1_0000_0000) as u32,
    ) + optional(has_base, (h.base_offset->0 % 0x1_0000_0000) as u32) + optional(
        has_description,
        h.description->0,
    );
    let x = optional(has_duration, h.duration->0);
    let y = optional(has_size, h.size->0);
    let z = optional(h.sample_flags is Some, h.sample_flags->0);
    assert(d[3] as int == flag(has_base, 1) + flag(has_description, 2) + flag(has_duration, 8)
        + flag(has_size, 16) + flag(h.sample_flags is Some, 32));
    assert(d == front + x + y + z);
    let at = 8 + flag(has_base, 8) + flag(has_description, 4);
    assert(front.len() == at);
    assert(sample::tfhd_defaults_at(d) == at);
    if let Some(v) = h.duration {
        assert(d.subrange(at, at + 4) =~= x);
        lemma_be32_in(d, at, v as int);
    }
    let next = at + flag(has_duration, 4);
    if let Some(v) = h.size {
        assert(d.subrange(next, next + 4) =~= y);
        lemma_be32_in(d, next, v as int);
    }
}

/// A `tfdt` of 64 bits.
#[verifier::opaque]
pub open spec fn tfdt_payload(v: u64) -> Seq<u8> {
    seq![1u8, 0u8, 0u8, 0u8] + wire::be32_bytes(v as int / 0x1_0000_0000) + wire::be32_bytes(
        v as int % 0x1_0000_0000,
    )
}

/// A decode time is read back from a `tfdt` of 64 bits, and from one of 32 where it fits.
pub proof fn law_tfdt_is_read_back(v: u64)
    ensures
        sample::tfdt_of(tfdt_payload(v)) == Some(v),
        v <= u32::MAX ==> sample::tfdt_of(
            seq![0u8, 0u8, 0u8, 0u8] + wire::be32_bytes(v as int),
        ) == Some(v),
{
    reveal(tfdt_payload);
    let hi = v as int / 0x1_0000_0000;
    let lo = v as int % 0x1_0000_0000;
    let d = seq![1u8, 0u8, 0u8, 0u8] + wire::be32_bytes(hi) + wire::be32_bytes(lo);
    assert(d.subrange(4, 8) =~= wire::be32_bytes(hi));
    assert(d.subrange(8, 12) =~= wire::be32_bytes(lo));
    lemma_be32_in(d, 4, hi);
    lemma_be32_in(d, 8, lo);
    if v <= u32::MAX {
        let e = seq![0u8, 0u8, 0u8, 0u8] + wire::be32_bytes(v as int);
        assert(e.subrange(4, 8) =~= wire::be32_bytes(v as int));
        lemma_be32_in(e, 4, v as int);
    }
}

/// What a `senc` says of one sample.
pub struct SencRecord {
    pub iv: Seq<u8>,
    pub map: Seq<SubSample>,
}

/// The entries of a map from `k` on: clear bytes in 16 bits, encrypted ones in 32.
pub open spec fn map_bytes(map: Seq<SubSample>, k: int) -> Seq<u8>
    decreases map.len() - k,
{
    if k < 0 || k >= map.len() {
        Seq::empty()
    } else {
        wire::be16_bytes(map[k].clear as int) + wire::be32_bytes(map[k].encrypted as int)
            + map_bytes(map, k + 1)
    }
}

/// The records from `k` on: the IV, and where there are maps the number of entries and these.
pub open spec fn senc_bytes(r: Seq<SencRecord>, mapped: bool, k: int) -> Seq<u8>
    decreases r.len() - k,
{
    if k < 0 || k >= r.len() {
        Seq::empty()
    } else if mapped {
        r[k].iv + wire::be16_bytes(r[k].map.len() as int) + map_bytes(r[k].map, 0) + senc_bytes(
            r,
            mapped,
            k + 1,
        )
    } else {
        r[k].iv + senc_bytes(r, mapped, k + 1)
    }
}

/// Whether records can be written with IVs of `iv_size` bytes.
pub open spec fn senc_wf(r: Seq<SencRecord>, iv_size: int) -> bool {
    &&& r.len() <= u32::MAX
    &&& forall|i: int|
        0 <= i < r.len() ==> (#[trigger] r[i]).iv.len() == iv_size && r[i].map.len() <= u16::MAX
}

proof fn lemma_map_is_read(d: Seq<u8>, p: int, map: Seq<SubSample>, k: int)
    requires
        0 <= k <= map.len(),
        0 <= p,
        p + map_bytes(map, k).len() <= d.len(),
        d.subrange(p, p + map_bytes(map, k).len()) == map_bytes(map, k),
    ensures
        sample::map_at(d, p, (map.len() - k) as nat) == map.skip(k),
        map_bytes(map, k).len() == 6 * (map.len() - k),
    decreases map.len() - k,
{
    let all = map_bytes(map, k);
    if k < map.len() {
        let rest = map_bytes(map, k + 1);
        let own = d.subrange(p, p + all.len());
        assert(all.len() == 6 + rest.len());
        assert(own.subrange(0, 2) =~= wire::be16_bytes(map[k].clear as int));
        assert(own.subrange(2, 6) =~= wire::be32_bytes(map[k].encrypted as int));
        assert(d.subrange(p, p + 2) =~= own.subrange(0, 2));
        assert(d.subrange(p + 2, p + 6) =~= own.subrange(2, 6));
        lemma_be16_in(d, p, map[k].clear as int);
        lemma_be32_in(d, p + 2, map[k].encrypted as int);
        assert(d.subrange(p + 6, p + 6 + rest.len()) =~= own.skip(6));
        assert(own.skip(6) =~= rest);
        lemma_map_is_read(d, p + 6, map, k + 1);
        assert(map.skip(k) =~= seq![map[k]] + map.skip(k + 1));
    } else {
        assert(map.skip(k) =~= Seq::<SubSample>::empty());
    }
}

/// The IVs and maps of records.
pub open spec fn senc_view(r: Seq<SencRecord>, mapped: bool) -> SencView {
    SencView {
        ivs: r.map_values(|x: SencRecord| x.iv),
        maps: r.map_values(
            |x: SencRecord|
                if mapped {
                    x.map
                } else {
                    Seq::empty()
                },
        ),
    }
}

/// A record with a map, and where the next one starts.
proof fn lemma_mapped_record(d: Seq<u8>, p: int, r: Seq<SencRecord>, iv_size: int, k: int)
    requires
        0 <= k < r.len(),
        0 <= p <= d.len(),
        0 <= iv_size,
        senc_wf(r, iv_size),
        d.skip(p) == senc_bytes(r, true, k),
    ensures
        ({
            let q = p + iv_size;
            let n = r[k].map.len();
            let next = q + 2 + 6 * n;
            &&& next <= d.len()
            &&& d.subrange(p, q) == r[k].iv
            &&& wire::be16_at(d, q) == n
            &&& sample::map_at(d, q + 2, n) == r[k].map
            &&& d.skip(next) == senc_bytes(r, true, k + 1)
        }),
{
    let x = r[k];
    let rest = senc_bytes(r, true, k + 1);
    let own = d.skip(p);
    let q = p + iv_size;
    let count = wire::be16_bytes(x.map.len() as int);
    let m = map_bytes(x.map, 0);
    assert(x.iv.len() == iv_size && x.map.len() <= u16::MAX);
    assert(own == x.iv + count + m + rest);
    assert(own.len() == d.len() - p);
    assert(own.take(iv_size) =~= x.iv);
    assert(d.subrange(p, q) =~= own.take(iv_size));
    assert(d.subrange(q, q + 2) =~= own.subrange(iv_size, iv_size + 2));
    assert(own.subrange(iv_size, iv_size + 2) =~= count);
    lemma_be16_in(d, q, x.map.len() as int);
    assert(d.subrange(q + 2, q + 2 + m.len()) =~= own.subrange(iv_size + 2, iv_size + 2 + m.len()));
    assert(own.subrange(iv_size + 2, iv_size + 2 + m.len()) =~= m);
    lemma_map_is_read(d, q + 2, x.map, 0);
    assert(x.map.skip(0) =~= x.map);
    let next = q + 2 + 6 * x.map.len();
    assert(d.skip(next) =~= own.skip(iv_size + 2 + m.len()));
    assert(own.skip(iv_size + 2 + m.len()) =~= rest);
}

proof fn lemma_senc_is_read(
    d: Seq<u8>,
    p: int,
    r: Seq<SencRecord>,
    mapped: bool,
    iv_size: int,
    k: int,
)
    requires
        0 <= k <= r.len(),
        0 <= p <= d.len(),
        0 <= iv_size,
        senc_wf(r, iv_size),
        d.skip(p) == senc_bytes(r, mapped, k),
    ensures
        sample::senc_records(d, p, (r.len() - k) as nat, iv_size, mapped) == (SencView {
            ivs: senc_view(r, mapped).ivs.skip(k),
            maps: senc_view(r, mapped).maps.skip(k),
        }),
    decreases r.len() - k,
{
    let v = senc_view(r, mapped);
    if k < r.len() {
        let x = r[k];
        let rest = senc_bytes(r, mapped, k + 1);
        let own = d.skip(p);
        let q = p + iv_size;
        assert(x.iv.len() == iv_size && x.map.len() <= u16::MAX);
        assert(own.len() == d.len() - p);
        assert(own == senc_bytes(r, mapped, k));
        assert(own.len() >= iv_size);
        assert(own.take(iv_size) =~= x.iv);
        assert(d.subrange(p, q) =~= own.take(iv_size));
        assert(v.ivs.skip(k) =~= seq![x.iv] + v.ivs.skip(k + 1));
        assert(v.maps.skip(k) =~= seq![v.maps[k]] + v.maps.skip(k + 1));
        if mapped {
            lemma_mapped_record(d, p, r, iv_size, k);
            lemma_senc_is_read(d, q + 2 + 6 * x.map.len(), r, mapped, iv_size, k + 1);
        } else {
            assert(d.skip(q) =~= own.skip(iv_size));
            assert(own.skip(iv_size) =~= rest);
            lemma_senc_is_read(d, q, r, mapped, iv_size, k + 1);
        }
    } else {
        assert(v.ivs.skip(k) =~= Seq::<Seq<u8>>::empty());
        assert(v.maps.skip(k) =~= Seq::<Seq<SubSample>>::empty());
    }
}

/// A `senc` without an IV size of its own.
#[verifier::opaque]
pub open spec fn senc_payload(r: Seq<SencRecord>, mapped: bool) -> Seq<u8> {
    seq![0u8, 0u8, 0u8, flag(mapped, 2) as u8] + wire::be32_bytes(r.len() as int) + senc_bytes(
        r,
        mapped,
        0,
    )
}

/// The IVs and maps of a `senc` are read back, with the IV size that the track states.
pub proof fn law_senc_is_read_back(r: Seq<SencRecord>, mapped: bool, iv_size: u8)
    requires
        senc_wf(r, iv_size as int),
    ensures
        sample::senc_of(senc_payload(r, mapped), Some(iv_size)) == Some(senc_view(r, mapped)),
{
    lemma_senc_payload(r, mapped, iv_size as int);
}

proof fn lemma_senc_payload(r: Seq<SencRecord>, mapped: bool, iv_size: int)
    requires
        senc_wf(r, iv_size),
        0 <= iv_size,
    ensures
        ({
            let d = senc_payload(r, mapped);
            &&& d.len() >= 8
            &&& d[3] as int == flag(mapped, 2)
            &&& wire::be32_at(d, 4) == r.len()
            &&& d.skip(8) == senc_bytes(r, mapped, 0)
            &&& sample::senc_records(d, 8, r.len(), iv_size, mapped) == senc_view(r, mapped)
        }),
{
    reveal(senc_payload);
    let d = senc_payload(r, mapped);
    assert(d.subrange(4, 8) =~= wire::be32_bytes(r.len() as int));
    lemma_be32_in(d, 4, r.len() as int);
    assert(d.skip(8) =~= senc_bytes(r, mapped, 0));
    lemma_senc_is_read(d, 8, r, mapped, iv_size, 0);
    let v = senc_view(r, mapped);
    assert(v.ivs.skip(0) =~= v.ivs);
    assert(v.maps.skip(0) =~= v.maps);
}

proof fn lemma_size_fits(
    d: Seq<u8>,
    p: int,
    r: Seq<SencRecord>,
    iv_size: int,
    k: int,
)
    requires
        0 <= k <= r.len(),
        0 <= p <= d.len(),
        0 <= iv_size,
        senc_wf(r, iv_size),
        d.skip(p) == senc_bytes(r, true, k),
    ensures
        sample::iv_size_fits(d, p, (r.len() - k) as nat, iv_size),
    decreases r.len() - k,
{
    if k < r.len() {
        lemma_mapped_record(d, p, r, iv_size, k);
        lemma_size_fits(d, p + iv_size + 2 + 6 * r[k].map.len(), r, iv_size, k + 1);
    } else {
        assert(d.skip(p).len() == 0);
    }
}

proof fn lemma_bare_length(r: Seq<SencRecord>, iv_size: int, k: int)
    requires
        0 <= k <= r.len(),
        senc_wf(r, iv_size),
    ensures
        senc_bytes(r, false, k).len() == (r.len() - k) * iv_size,
    decreases r.len() - k,
{
    if k < r.len() {
        lemma_bare_length(r, iv_size, k + 1);
        assert(r[k].iv.len() == iv_size);
        assert((r.len() - k) * iv_size == (r.len() - k - 1) * iv_size + iv_size)
            by (nonlinear_arith);
    } else {
        assert(0 * iv_size == 0) by (nonlinear_arith);
    }
}

/// Where no track states the IV size, IVs of 8 bytes are told from the length of the records; those
/// of 16 too, unless the records could also be read with 8.
pub proof fn law_iv_size_is_inferred(r: Seq<SencRecord>, mapped: bool, iv_size: int)
    requires
        r.len() > 0,
        iv_size == 8 || iv_size == 16,
        senc_wf(r, iv_size),
        iv_size == 16 && mapped ==> !sample::iv_size_fits(senc_bytes(r, mapped, 0), 0, r.len(), 8),
    ensures
        sample::senc_of(senc_payload(r, mapped), None) == Some(senc_view(r, mapped)),
{
    lemma_senc_payload(r, mapped, iv_size);
    let b = senc_bytes(r, mapped, 0);
    if mapped {
        assert(b.skip(0) =~= b);
        lemma_size_fits(b, 0, r, iv_size, 0);
    } else {
        lemma_bare_length(r, iv_size, 0);
    }
}

/// The samples of a table lie one behind the other from the start of the payload, each as long as
/// its size, with what the columns say of it. Where there is no column of durations or sizes, the
/// default of the track fragment holds for every sample.
pub proof fn law_samples_lie_end_to_end(
    trun: TrunView,
    tfhd: Option<Seq<u8>>,
    senc: SencView,
    i: int,
)
    requires
        trun.sizes.len() == trun.count || (trun.sizes.len() == 0 && tfhd is Some
            && sample::tfhd_size(tfhd->0) is Some),
        trun.durations.len() == trun.count || (trun.durations.len() == 0 && tfhd is Some
            && sample::tfhd_duration(tfhd->0) is Some),
        0 <= i < trun.count,
    ensures
        ({
            let s = sample::samples_of(trun, tfhd, senc);
            &&& s.len() == trun.count
            &&& i == 0 ==> s[i].from == 0
            &&& i > 0 ==> s[i].from == s[i - 1].to
            &&& trun.sizes.len() > 0 ==> s[i].to - s[i].from == trun.sizes[i]
            &&& trun.sizes.len() == 0 ==> s[i].to - s[i].from == sample::tfhd_size(tfhd->0)->0
            &&& trun.durations.len() > 0 ==> s[i].duration == trun.durations[i]
            &&& trun.durations.len() == 0 ==> s[i].duration == sample::tfhd_duration(tfhd->0)->0
            &&& i < trun.cts.len() ==> s[i].cts_offset == trun.cts[i]
            &&& trun.cts.len() == 0 ==> s[i].cts_offset == 0
            &&& i < senc.ivs.len() ==> s[i].iv == senc.ivs[i]
            &&& i < senc.maps.len() ==> s[i].subsamples == senc.maps[i]
            &&& senc.ivs.len() == 0 ==> s[i].iv.len() == 0
            &&& senc.maps.len() == 0 ==> s[i].subsamples.len() == 0
        }),
{
}

/// A media segment to be written.
pub struct PlainSegment {
    pub header: Seq<u8>,
    pub trun: PlainTrun,
    pub tfhd: PlainTfhd,
    pub time: u64,
    pub senc: Option<Seq<SencRecord>>,
    pub mapped: bool,
    pub media: Seq<u8>,
}

/// A box of a type.
pub open spec fn plain(typ: [u8; 4], payload: Seq<u8>) -> PlainBox {
    PlainBox { typ: typ@, payload }
}

/// `mfhd`
pub open spec fn mfhd() -> Seq<u8> {
    seq![0x6du8, 0x66u8, 0x68u8, 0x64u8]
}

impl PlainSegment {
    /// The boxes of the track fragment.
    pub open spec fn traf(self) -> Seq<PlainBox> {
        let front = seq![
            plain(sample::TFHD, self.tfhd.payload()),
            plain(sample::TFDT, tfdt_payload(self.time)),
            plain(sample::TRUN, self.trun.payload()),
        ];
        match self.senc {
            Some(r) => front.push(plain(sample::SENC, senc_payload(r, self.mapped))),
            None => front,
        }
    }

    pub open spec fn moof(self) -> Seq<PlainBox> {
        seq![
            PlainBox { typ: mfhd(), payload: self.header },
            plain(sample::TRAF, box_run(self.traf())),
        ]
    }

    pub open spec fn top(self) -> Seq<PlainBox> {
        seq![plain(sample::MOOF, box_run(self.moof())), plain(sample::MDAT, self.media)]
    }

    /// Whether all boxes can be written.
    pub open spec fn wf(self, iv_size: u8) -> bool {
        &&& all_wf(self.traf())
        &&& all_wf(self.moof())
        &&& all_wf(self.top())
        &&& self.trun.records.len() <= u32::MAX
        &&& self.senc matches Some(r) ==> senc_wf(r, iv_size as int)
    }
}

proof fn lemma_plain_types()
    ensures
        !boxes::is_container(boxes::CONTAINERS@, sample::TFHD@),
        !boxes::is_container(boxes::CONTAINERS@, sample::TFDT@),
        !boxes::is_container(boxes::CONTAINERS@, sample::TRUN@),
        !boxes::is_container(boxes::CONTAINERS@, sample::SENC@),
        !boxes::is_container(boxes::CONTAINERS@, sample::MDAT@),
        !boxes::is_container(boxes::CONTAINERS@, mfhd()),
        sample::TFHD@[0] == 0x74 && sample::TFHD@[1] == 0x66 && sample::TFHD@[2] == 0x68,
        sample::TFDT@[0] == 0x74 && sample::TFDT@[1] == 0x66 && sample::TFDT@[2] == 0x64,
        sample::TRUN@[0] == 0x74 && sample::TRUN@[1] == 0x72 && sample::TRUN@[2] == 0x75,
        sample::TRAF@[0] == 0x74 && sample::TRAF@[1] == 0x72 && sample::TRAF@[2] == 0x61,
        sample::SENC@[0] == 0x73,
        sample::MDAT@[0] == 0x6d && sample::MDAT@[1] == 0x64,
        sample::MOOF@[0] == 0x6d && sample::MOOF@[1] == 0x6f,
{
    let c = boxes::CONTAINERS@;
    assert forall|i: int| 0 <= i < c.len() implies (#[trigger] c[i])@ != sample::TFHD@ && c[i]@
        != sample::TFDT@ && c[i]@ != sample::TRUN@ && c[i]@ != sample::SENC@ && c[i]@
        != sample::MDAT@ && c[i]@ != mfhd() by {
        let x = c[i]@;
        assert(x[0] == boxes::CONTAINERS[i][0] && x[1] == boxes::CONTAINERS[i][1] && x[2]
            == boxes::CONTAINERS[i][2] && x[3] == boxes::CONTAINERS[i][3]);
        assert(mfhd()[1] == 0x66);
    }
}

proof fn lemma_traf_is_read(s: PlainSegment, iv_size: u8)
    requires
        s.wf(iv_size),
    ensures
        ({
            let traf = box_run(s.traf());
            &&& sample::inside(traf, sample::TFHD@) == Some(s.tfhd.payload())
            &&& sample::inside(traf, sample::TFDT@) == Some(tfdt_payload(s.time))
            &&& sample::inside(traf, sample::TRUN@) == Some(s.trun.payload())
            &&& sample::inside(traf, sample::SENC@) == match s.senc {
                Some(r) => Some(senc_payload(r, s.mapped)),
                None => None,
            }
        }),
{
    lemma_plain_types();
    let b = s.traf();
    let c = boxes::CONTAINERS@;
    assert(b[0] == plain(sample::TFHD, s.tfhd.payload()));
    assert(b[1] == plain(sample::TFDT, tfdt_payload(s.time)));
    assert(b[2] == plain(sample::TRUN, s.trun.payload()));
    law_first_box_is_found(b, sample::TFHD@, c, 0);
    assert(passed_over(b[0], sample::TFDT@, c));
    law_first_box_is_found(b, sample::TFDT@, c, 1);
    assert(passed_over(b[0], sample::TRUN@, c) && passed_over(b[1], sample::TRUN@, c));
    law_first_box_is_found(b, sample::TRUN@, c, 2);
    assert(passed_over(b[0], sample::SENC@, c) && passed_over(b[1], sample::SENC@, c)
        && passed_over(b[2], sample::SENC@, c));
    law_first_box_is_found(b, sample::SENC@, c, 3);
}

/// A media segment is read back: the decode time, the payload of its media, and for each sample
/// where it lies, how long it lasts, its composition offset, its IV and its map.
pub proof fn law_segment_is_read_back(s: PlainSegment, iv_size: u8)
    requires
        s.wf(iv_size),
        s.trun.has_size,
        sample::total(s.trun.records.map_values(|r: TrunRecord| r.size), s.trun.records.len() as int)
            <= usize::MAX,
    ensures
        ({
            let seg = sample::segment_of(box_run(s.top()), Some(iv_size));
            &&& seg is Some
            &&& seg->0.mdat == s.media
            &&& seg->0.base_media_decode_time == Some(s.time)
            &&& seg->0.samples.len() == s.trun.records.len()
            &&& forall|i: int|
                #![trigger seg->0.samples[i]]
                0 <= i < s.trun.records.len() ==> {
                    let x = seg->0.samples[i];
                    let r = s.trun.records[i];
                    &&& x.from == (if i == 0 {
                        0
                    } else {
                        seg->0.samples[i - 1].to
                    })
                    &&& x.to == x.from + r.size
                    &&& s.trun.has_duration ==> x.duration == r.duration
                    &&& !s.trun.has_duration ==> x.duration == (match s.tfhd.duration {
                        Some(d) => d,
                        None => 0,
                    })
                    &&& s.trun.has_cts ==> x.cts_offset == r.cts
                    &&& !s.trun.has_cts ==> x.cts_offset == 0
                    &&& s.senc matches Some(q) ==> (i < q.len() ==> x.iv == q[i].iv && (s.mapped
                        ==> x.subsamples == q[i].map))
                    &&& s.senc is None ==> x.iv.len() == 0 && x.subsamples.len() == 0
                }
        }),
{
    let t = TrunView {
        durations: if s.trun.has_duration {
            s.trun.records.map_values(|r: TrunRecord| r.duration)
        } else {
            Seq::empty()
        },
        sizes: s.trun.records.map_values(|r: TrunRecord| r.size),
        cts: if s.trun.has_cts {
            s.trun.records.map_values(|r: TrunRecord| r.cts)
        } else {
            Seq::empty()
        },
        count: s.trun.records.len(),
    };
    let senc = match s.senc {
        Some(r) => senc_view(r, s.mapped),
        None => SencView { ivs: Seq::empty(), maps: Seq::empty() },
    };
    law_trun_is_read_back(s.trun);
    if let Some(r) = s.senc {
        law_senc_is_read_back(r, s.mapped, iv_size);
    }
    lemma_segment_view(s, iv_size, t, senc);
    lemma_sample_views(s, t, senc);
}

proof fn lemma_sample_views(s: PlainSegment, t: TrunView, senc: SencView)
    requires
        t.durations == if s.trun.has_duration {
            s.trun.records.map_values(|r: TrunRecord| r.duration)
        } else {
            Seq::empty()
        },
        t.sizes == s.trun.records.map_values(|r: TrunRecord| r.size),
        t.cts == if s.trun.has_cts {
            s.trun.records.map_values(|r: TrunRecord| r.cts)
        } else {
            Seq::empty()
        },
        t.count == s.trun.records.len(),
        senc == match s.senc {
            Some(r) => senc_view(r, s.mapped),
            None => SencView { ivs: Seq::empty(), maps: Seq::empty() },
        },
    ensures
        ({
            let v = sample::samples_of(t, Some(s.tfhd.payload()), senc);
            &&& v.len() == s.trun.records.len()
            &&& forall|i: int|
                #![trigger v[i]]
                0 <= i < s.trun.records.len() ==> {
                    let x = v[i];
                    let r = s.trun.records[i];
                    &&& x.from == (if i == 0 {
                        0
                    } else {
                        v[i - 1].to
                    })
                    &&& x.to == x.from + r.size
                    &&& s.trun.has_duration ==> x.duration == r.duration
                    &&& !s.trun.has_duration ==> x.duration == (match s.tfhd.duration {
                        Some(d) => d,
                        None => 0,
                    })
                    &&& s.trun.has_cts ==> x.cts_offset == r.cts
                    &&& !s.trun.has_cts ==> x.cts_offset == 0
                    &&& s.senc matches Some(q) ==> (i < q.len() ==> x.iv == q[i].iv && (s.mapped
                        ==> x.subsamples == q[i].map))
                    &&& s.senc is None ==> x.iv.len() == 0 && x.subsamples.len() == 0
                }
        }),
{
    law_tfhd_is_read_back(s.tfhd);
    let h = s.tfhd.payload();
    let d = sample::tfhd_duration(h);
    let v = sample::samples_of(t, Some(h), senc);
    assert(sample::filled(t.sizes, t.count, sample::tfhd_size(h)) == t.sizes);
    assert forall|i: int| #![trigger v[i]] 0 <= i < s.trun.records.len() implies {
        let x = v[i];
        let r = s.trun.records[i];
        &&& x.from == (if i == 0 {
            0
        } else {
            v[i - 1].to
        })
        &&& x.to == x.from + r.size
        &&& s.trun.has_duration ==> x.duration == r.duration
        &&& !s.trun.has_duration ==> x.duration == (match s.tfhd.duration {
            Some(d) => d,
            None => 0,
        })
        &&& s.trun.has_cts ==> x.cts_offset == r.cts
        &&& !s.trun.has_cts ==> x.cts_offset == 0
        &&& s.senc matches Some(q) ==> (i < q.len() ==> x.iv == q[i].iv && (s.mapped
            ==> x.subsamples == q[i].map))
        &&& s.senc is None ==> x.iv.len() == 0 && x.subsamples.len() == 0
    } by {
        assert(v[i].from == sample::total(t.sizes, i));
        assert(sample::total(t.sizes, i + 1) == sample::total(t.sizes, i) + t.sizes[i]);
    }
}

proof fn lemma_segment_view(s: PlainSegment, iv_size: u8, t: TrunView, senc: SencView)
    requires
        s.wf(iv_size),
        sample::trun_of(s.trun.payload()) == Some(t),
        t.sizes.len() == t.count,
        sample::total(t.sizes, t.count as int) <= usize::MAX,
        match s.senc {
            Some(r) => sample::senc_of(senc_payload(r, s.mapped), Some(iv_size)) == Some(senc),
            None => senc == (SencView { ivs: Seq::empty(), maps: Seq::empty() }),
        },
    ensures
        sample::segment_of(box_run(s.top()), Some(iv_size)) == Some(
            sample::SegmentView {
                samples: sample::samples_of(t, Some(s.tfhd.payload()), senc),
                mdat: s.media,
                base_media_decode_time: Some(s.time),
            },
        ),
{
    lemma_top_is_read(s, iv_size);
    lemma_traf_is_read(s, iv_size);
    law_tfdt_is_read_back(s.time);
    let all = sample::samples_of(t, Some(s.tfhd.payload()), senc);
    assert(all.len() == t.count);
    if t.count > 0 {
        assert(all.last().to == sample::total(t.sizes, t.count as int));
    }
    lemma_fragment_view(
        box_run(s.top()),
        box_run(s.moof()),
        box_run(s.traf()),
        s.trun.payload(),
        iv_size,
        t,
        senc,
        s.media,
    );
}

proof fn lemma_fragment_view(
    seg: Seq<u8>,
    moof: Seq<u8>,
    traf: Seq<u8>,
    trun: Seq<u8>,
    iv_size: u8,
    t: TrunView,
    senc: SencView,
    media: Seq<u8>,
)
    requires
        sample::inside(seg, sample::MOOF@) == Some(moof),
        sample::inside(moof, sample::TRAF@) == Some(traf),
        sample::inside(traf, sample::TRUN@) == Some(trun),
        sample::trun_of(trun) == Some(t),
        match sample::inside(traf, sample::SENC@) {
            Some(x) => sample::senc_of(x, Some(iv_size)) == Some(senc),
            None => senc == (SencView { ivs: Seq::empty(), maps: Seq::empty() }),
        },
        sample::first_of_type(boxes::boxes_from(seg, 0), sample::MDAT@) == Some(media),
        ({
            let all = sample::samples_of(t, sample::inside(traf, sample::TFHD@), senc);
            all.len() > 0 ==> all.last().to <= usize::MAX
        }),
    ensures
        sample::segment_of(seg, Some(iv_size)) == Some(
            sample::SegmentView {
                samples: sample::samples_of(t, sample::inside(traf, sample::TFHD@), senc),
                mdat: media,
                base_media_decode_time: match sample::inside(traf, sample::TFDT@) {
                    Some(x) => sample::tfdt_of(x),
                    None => None,
                },
            },
        ),
{
}

proof fn lemma_top_is_read(s: PlainSegment, iv_size: u8)
    requires
        s.wf(iv_size),
    ensures
        sample::inside(box_run(s.top()), sample::MOOF@) == Some(box_run(s.moof())),
        sample::inside(box_run(s.moof()), sample::TRAF@) == Some(box_run(s.traf())),
        sample::first_of_type(boxes::boxes_from(box_run(s.top()), 0), sample::MDAT@) == Some(
            s.media,
        ),
{
    let c = boxes::CONTAINERS@;
    lemma_plain_types();
    law_first_box_is_found(s.top(), sample::MOOF@, c, 0);
    assert(passed_over(s.moof()[0], sample::TRAF@, c)) by {
        assert(mfhd()[0] == 0x6d);
    }
    law_first_box_is_found(s.moof(), sample::TRAF@, c, 1);
    law_boxes_are_read_back(s.top());
    lemma_second_is_first(spans(s.top()), sample::MDAT@);
}

proof fn lemma_second_is_first(b: Seq<BoxSpan>, typ: Seq<u8>)
    requires
        b.len() == 2,
        b[0].typ != typ,
        b[1].typ == typ,
    ensures
        sample::first_of_type(b, typ) == Some(b[1].payload),
{
    let r = b.skip(1);
    assert(r[0] == b[1]);
    reveal_with_fuel(sample::first_of_type, 2);
}

} // verus!
