//! Walking boxes: `size(4) type(4) [largesize(8)] payload`.

use vstd::prelude::*;

use crate::wire;

verus! {

/// Where a box lies in the bytes around it.
pub struct BoxSpan {
    pub typ: Seq<u8>,
    pub payload: Seq<u8>,
    pub total: int,
    /// Whether the walk ends with this box.
    pub closes: bool,
}

/// The size that the header at `p` states, and the length of that header.
pub open spec fn stated_size(d: Seq<u8>, p: int) -> (int, int) {
    if wire::be32_at(d, p) == 1 {
        (wire::be64_at(d, p + 8), 16)
    } else {
        (wire::be32_at(d, p), 8)
    }
}

/// The box whose header starts at `p`, if there is one: its header is whole, and its size covers
/// the header and stays inside `d`. A size of 0 reaches to the end.
pub open spec fn box_at(d: Seq<u8>, p: int) -> Option<BoxSpan> {
    if p < 0 || p + 8 > d.len() || (wire::be32_at(d, p) == 1 && p + 16 > d.len()) {
        None
    } else {
        let (size, hdr) = stated_size(d, p);
        let typ = d.subrange(p + 4, p + 8);
        if size == 0 {
            if p + hdr > d.len() {
                None
            } else {
                Some(
                    BoxSpan {
                        typ,
                        payload: d.subrange(p + hdr, d.len() as int),
                        total: d.len() - p,
                        closes: true,
                    },
                )
            }
        } else if size < hdr || p + size > d.len() {
            None
        } else {
            Some(
                BoxSpan { typ, payload: d.subrange(p + hdr, p + size), total: size, closes: false },
            )
        }
    }
}

/// The boxes that follow one another from `p` on.
pub open spec fn boxes_from(d: Seq<u8>, p: int) -> Seq<BoxSpan>
    decreases d.len() - p,
{
    match box_at(d, p) {
        None => Seq::empty(),
        Some(b) => if b.closes {
            seq![b]
        } else {
            seq![b] + boxes_from(d, p + b.total)
        },
    }
}

/// Whether `typ` is one of the container types.
pub open spec fn is_container(containers: Seq<[u8; 4]>, typ: Seq<u8>) -> bool {
    exists|i: int| 0 <= i < containers.len() && (#[trigger] containers[i])@ == typ
}

/// The payload of the first box of type `target`, depth first, among the boxes from `p` on.
pub open spec fn find_from(
    d: Seq<u8>,
    p: int,
    target: Seq<u8>,
    containers: Seq<[u8; 4]>,
) -> Option<Seq<u8>>
    decreases d.len(), d.len() - p,
{
    match box_at(d, p) {
        None => None,
        Some(b) => if b.typ == target {
            Some(b.payload)
        } else {
            let inner = if is_container(containers, b.typ) {
                find_from(b.payload, 0, target, containers)
            } else {
                None
            };
            if inner is Some {
                inner
            } else if b.closes {
                None
            } else {
                find_from(d, p + b.total, target, containers)
            }
        },
    }
}

/// The payload of the first box header of type `target`, at any byte from `p` on, whose size
/// covers it and stays inside `d`.
pub open spec fn scan_from(d: Seq<u8>, p: int, target: Seq<u8>) -> Option<Seq<u8>>
    decreases d.len() - p,
{
    if p < 0 || p + 8 > d.len() {
        None
    } else {
        let size = wire::be32_at(d, p);
        if d.subrange(p + 4, p + 8) == target && size >= 8 && p + size <= d.len() {
            Some(d.subrange(p + 8, p + size))
        } else {
            scan_from(d, p + 1, target)
        }
    }
}

/// The payload of a box of an init segment: found by walking the containers, or else, since
/// sample entries are no plain containers, by scanning.
pub open spec fn located(d: Seq<u8>, target: Seq<u8>) -> Option<Seq<u8>> {
    match find_from(d, 0, target, CONTAINERS@) {
        Some(p) => Some(p),
        None => scan_from(d, 0, target),
    }
}

/// The payloads of the boxes of type `target` among the boxes from `p` on and in their containers,
/// in their order.
pub open spec fn payloads_from(
    d: Seq<u8>,
    p: int,
    target: Seq<u8>,
    containers: Seq<[u8; 4]>,
) -> Seq<Seq<u8>>
    decreases d.len(), d.len() - p,
{
    match box_at(d, p) {
        None => Seq::empty(),
        Some(b) => {
            let here = if b.typ == target {
                seq![b.payload]
            } else if is_container(containers, b.typ) {
                payloads_from(b.payload, 0, target, containers)
            } else {
                Seq::empty()
            };
            if b.closes {
                here
            } else {
                here + payloads_from(d, p + b.total, target, containers)
            }
        },
    }
}

/// The payloads behind the box headers of type `target` at any byte from `p` on.
pub open spec fn spelled_from(d: Seq<u8>, p: int, target: Seq<u8>) -> Seq<Seq<u8>>
    decreases d.len() - p,
{
    if p < 0 || p + 8 > d.len() {
        Seq::empty()
    } else {
        let size = wire::be32_at(d, p);
        if d.subrange(p + 4, p + 8) == target && size >= 8 && p + size <= d.len() {
            seq![d.subrange(p + 8, p + size)] + spelled_from(d, p + 1, target)
        } else {
            spelled_from(d, p + 1, target)
        }
    }
}

/// Whether an init segment holds one box of type `target`, with the payload `q`: in its
/// containers, or else at a place that no container walk reaches.
pub open spec fn holds_one(d: Seq<u8>, target: Seq<u8>, q: Seq<u8>) -> bool {
    let walked = payloads_from(d, 0, target, CONTAINERS@);
    walked == seq![q] || (walked.len() == 0 && spelled_from(d, 0, target) == seq![q])
}

/// Whether an init segment holds no box of type `target`, nor spells its header anywhere.
pub open spec fn holds_none(d: Seq<u8>, target: Seq<u8>) -> bool {
    payloads_from(d, 0, target, CONTAINERS@).len() == 0 && spelled_from(d, 0, target).len() == 0
}

proof fn lemma_first_is_found(d: Seq<u8>, p: int, target: Seq<u8>, containers: Seq<[u8; 4]>)
    ensures
        find_from(d, p, target, containers) == if payloads_from(d, p, target, containers).len()
            == 0 {
            None
        } else {
            Some(payloads_from(d, p, target, containers)[0])
        },
    decreases d.len(), d.len() - p,
{
    if let Some(b) = box_at(d, p) {
        if b.typ != target && is_container(containers, b.typ) {
            lemma_first_is_found(b.payload, 0, target, containers);
        }
        if !b.closes {
            lemma_first_is_found(d, p + b.total, target, containers);
        }
    }
}

proof fn lemma_first_is_scanned(d: Seq<u8>, p: int, target: Seq<u8>)
    ensures
        scan_from(d, p, target) == if spelled_from(d, p, target).len() == 0 {
            None
        } else {
            Some(spelled_from(d, p, target)[0])
        },
    decreases d.len() - p,
{
    if p >= 0 && p + 8 <= d.len() {
        lemma_first_is_scanned(d, p + 1, target);
    }
}

/// The box that is located in an init segment is its only one of the type, if it holds one.
pub proof fn law_only_box_is_located(d: Seq<u8>, target: Seq<u8>, q: Seq<u8>)
    ensures
        holds_one(d, target, q) ==> located(d, target) == Some(q),
        holds_none(d, target) ==> located(d, target) is None,
{
    lemma_first_is_found(d, 0, target, CONTAINERS@);
    lemma_first_is_scanned(d, 0, target);
}

/// One box.
#[derive(Debug, Clone, Copy)]
pub struct BoxView<'a> {
    pub typ: [u8; 4],
    /// The content, without the header.
    pub payload: &'a [u8],
    /// The length of the box with its header.
    pub total_size: usize,
}

impl<'a> BoxView<'a> {
    /// Whether this is the box that `span` describes.
    pub open spec fn shows(&self, span: BoxSpan) -> bool {
        &&& self.typ@ == span.typ
        &&& self.payload@ == span.payload
        &&& self.total_size == span.total
    }

    /// The type as text.
    pub fn type_str(&self) -> (r: String)
        ensures
            r@ == crate::text::lossy_text(self.typ@),
    {
        crate::text::from_utf8_lossy(self.typ.as_slice())
    }
}

/// The four bytes at `p`.
fn type_at(data: &[u8], p: usize) -> (r: [u8; 4])
    requires
        p + 4 <= data.len(),
    ensures
        r@ == data@.subrange(p as int, p + 4),
{
    let r: [u8; 4] = [data[p], data[p + 1], data[p + 2], data[p + 3]];
    assert(r@ =~= data@.subrange(p as int, p + 4));
    r
}

/// Whether two box types are the same.
pub fn same_type(a: &[u8; 4], b: &[u8; 4]) -> (r: bool)
    ensures
        r == (a@ == b@),
{
    let r: bool = a[0] == b[0] && a[1] == b[1] && a[2] == b[2] && a[3] == b[3];
    proof {
        if r {
            assert(a@ =~= b@);
        } else {
            assert(a@[0] != b@[0] || a@[1] != b@[1] || a@[2] != b@[2] || a@[3] != b@[3]);
        }
    }
    r
}

/// The box at `p`, and whether the walk ends with it.
fn read_box<'a>(data: &'a [u8], p: usize) -> (r: Option<(BoxView<'a>, bool)>)
    requires
        p <= data.len(),
    ensures
        match r {
            None => box_at(data@, p as int) is None,
            Some((b, closes)) => box_at(data@, p as int) matches Some(span) && b.shows(span)
                && closes == span.closes && (!closes ==> p + b.total_size <= data.len()
                && b.total_size >= 8) && b.payload.len() + 8 <= data.len(),
        },
{
    let n: usize = data.len();
    if n - p < 8 {
        return None;
    }
    let typ: [u8; 4] = type_at(data, p + 4);
    let mut size: u64 = wire::read_be32(data, p) as u64;
    let mut hdr: usize = 8;
    if size == 1 {
        if n - p < 16 {
            return None;
        }
        size = wire::read_be64(data, p + 8);
        hdr = 16;
    }
    if size == 0 {
        return Some(
            (
                BoxView {
                    typ,
                    payload: vstd::slice::slice_subrange(data, p + hdr, n),
                    total_size: n - p,
                },
                true,
            ),
        );
    }
    if size < hdr as u64 || size > (n - p) as u64 {
        return None;
    }
    let end: usize = p + size as usize;
    Some(
        (
            BoxView {
                typ,
                payload: vstd::slice::slice_subrange(data, p + hdr, end),
                total_size: size as usize,
            },
            false,
        ),
    )
}

/// The boxes at the top level of `data`.
pub fn iter_boxes<'a>(data: &'a [u8]) -> (r: Vec<BoxView<'a>>)
    ensures
        r@.len() == boxes_from(data@, 0).len(),
        forall|i: int| 0 <= i < r@.len() ==> (#[trigger] r@[i]).shows(boxes_from(data@, 0)[i]),
{
    let mut out: Vec<BoxView<'a>> = Vec::new();
    let mut p: usize = 0;
    let ghost all = boxes_from(data@, 0);
    loop
        invariant
            p <= data.len(),
            all == boxes_from(data@, 0),
            out@.len() <= all.len(),
            all.skip(out@.len() as int) == boxes_from(data@, p as int),
            forall|i: int| 0 <= i < out@.len() ==> (#[trigger] out@[i]).shows(all[i]),
        decreases data.len() - p,
    {
        match read_box(data, p) {
            None => {
                assert(all.skip(out@.len() as int).len() == 0);
                return out;
            },
            Some((b, closes)) => {
                let ghost rest = boxes_from(data@, p as int);
                let ghost k = out@.len() as int;
                assert(all.skip(k) == rest && rest.len() >= 1);
                assert(all[k] == all.skip(k)[0]);
                let step: usize = b.total_size;
                out.push(b);
                if closes {
                    assert(rest.len() == 1);
                    return out;
                }
                p = p + step;
                assert(all.skip(k + 1) =~= rest.skip(1));
                assert(rest.skip(1) =~= boxes_from(data@, p as int));
            },
        }
    }
}

/// The payload of the first box of type `target`, depth first; boxes of the types in
/// `container_types` are entered.
pub fn find_box<'a>(data: &'a [u8], target: &[u8; 4], container_types: &[[u8; 4]]) -> (r: Option<
    &'a [u8],
>)
    ensures
        match r {
            None => find_from(data@, 0, target@, container_types@) is None,
            Some(p) => find_from(data@, 0, target@, container_types@) == Some(p@),
        },
    decreases data@.len(),
{
    let mut p: usize = 0;
    loop
        invariant
            p <= data.len(),
            find_from(data@, 0, target@, container_types@) == find_from(
                data@,
                p as int,
                target@,
                container_types@,
            ),
        decreases data.len() - p,
    {
        match read_box(data, p) {
            None => {
                return None;
            },
            Some((b, closes)) => {
                if same_type(&b.typ, target) {
                    return Some(b.payload);
                }
                if listed(&b.typ, container_types) {
                    if let Some(found) = find_box(b.payload, target, container_types) {
                        return Some(found);
                    }
                }
                if closes {
                    return None;
                }
                p = p + b.total_size;
            },
        }
    }
}

fn listed(typ: &[u8; 4], containers: &[[u8; 4]]) -> (r: bool)
    ensures
        r == is_container(containers@, typ@),
{
    for i in 0..containers.len()
        invariant
            forall|j: int| 0 <= j < i ==> (#[trigger] containers@[j])@ != typ@,
    {
        if same_type(&containers[i], typ) {
            return true;
        }
    }
    false
}

fn scan_anywhere<'a>(data: &'a [u8], target: &[u8; 4]) -> (r: Option<&'a [u8]>)
    ensures
        match r {
            None => scan_from(data@, 0, target@) is None,
            Some(p) => scan_from(data@, 0, target@) == Some(p@),
        },
{
    let n: usize = data.len();
    let mut i: usize = 0;
    while n >= 8 && i <= n - 8
        invariant
            n == data@.len(),
            n >= 8 ==> i <= n - 7,
            n < 8 ==> i == 0,
            scan_from(data@, 0, target@) == scan_from(data@, i as int, target@),
        decreases n - i,
    {
        let typ: [u8; 4] = type_at(data, i + 4);
        if same_type(&typ, target) {
            let size: u32 = wire::read_be32(data, i);
            if size >= 8 && size as usize <= n - i {
                return Some(vstd::slice::slice_subrange(data, i + 8, i + size as usize));
            }
        }
        i = i + 1;
    }
    None
}

/// The payload of a box of an init segment.
pub fn locate<'a>(init: &'a [u8], target: &[u8; 4]) -> (r: Option<&'a [u8]>)
    ensures
        match r {
            None => located(init@, target@) is None,
            Some(p) => located(init@, target@) == Some(p@),
        },
{
    match find_box(init, target, CONTAINERS.as_slice()) {
        Some(p) => Some(p),
        None => scan_anywhere(init, target),
    }
}

/// The types that hold boxes: `moov trak mdia minf stbl mvex moof traf sinf schi stsd edts dinf`.
pub const CONTAINERS: [[u8; 4]; 13] = [
    [0x6d, 0x6f, 0x6f, 0x76],
    [0x74, 0x72, 0x61, 0x6b],
    [0x6d, 0x64, 0x69, 0x61],
    [0x6d, 0x69, 0x6e, 0x66],
    [0x73, 0x74, 0x62, 0x6c],
    [0x6d, 0x76, 0x65, 0x78],
    [0x6d, 0x6f, 0x6f, 0x66],
    [0x74, 0x72, 0x61, 0x66],
    [0x73, 0x69, 0x6e, 0x66],
    [0x73, 0x63, 0x68, 0x69],
    [0x73, 0x74, 0x73, 0x64],
    [0x65, 0x64, 0x74, 0x73],
    [0x64, 0x69, 0x6e, 0x66],
];

} // verus!
