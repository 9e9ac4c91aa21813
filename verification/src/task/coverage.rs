//! How much time intervals cover together.

use vstd::prelude::*;

verus! {

/// More than any bound of an interval, in either direction.
pub const BOUND: i128 = 0x1000_0000_0000_0000_0000_0000_0000;

/// The points from one bound up to another, which is not one of them.
#[derive(Debug, Clone, Copy, PartialEq, Eq, Structural)]
pub struct Interval {
    pub from: i128,
    pub to: i128,
}

impl Interval {
    pub open spec fn holds(self, x: int) -> bool {
        self.from <= x < self.to
    }

    /// Whether the interval holds a point, and its bounds are not out of reach.
    pub open spec fn wf(self) -> bool {
        -BOUND < self.from < self.to < BOUND
    }
}

/// The points that any of the intervals holds.
pub open spec fn points(v: Seq<Interval>) -> Set<int> {
    Set::new(|x: int| exists|i: int| 0 <= i < v.len() && (#[trigger] v[i]).holds(x))
}

/// Whether intervals come in the order of their first points.
pub open spec fn sorted(v: Seq<Interval>) -> bool {
    forall|i: int, j: int| 0 <= i <= j < v.len() ==> v[i].from <= v[j].from
}

/// Whether all intervals are well formed.
pub open spec fn all_wf(v: Seq<Interval>) -> bool {
    forall|i: int| 0 <= i < v.len() ==> (#[trigger] v[i]).wf()
}

proof fn lemma_points_insert(v: Seq<Interval>, at: int, x: Interval)
    requires
        0 <= at <= v.len(),
    ensures
        points(v.insert(at, x)) =~= points(v.push(x)),
{
    let a = v.insert(at, x);
    let b = v.push(x);
    assert forall|p: int| points(a).contains(p) == points(b).contains(p) by {
        if points(a).contains(p) {
            let i = choose|i: int| 0 <= i < a.len() && (#[trigger] a[i]).holds(p);
            if i < at {
                assert(b[i] == a[i]);
            } else if i == at {
                assert(b[v.len() as int] == a[i]);
            } else {
                assert(b[i - 1] == a[i]);
            }
        }
        if points(b).contains(p) {
            let i = choose|i: int| 0 <= i < b.len() && (#[trigger] b[i]).holds(p);
            if i == v.len() {
                assert(a[at] == b[i]);
            } else if i < at {
                assert(a[i] == b[i]);
            } else {
                assert(a[i + 1] == b[i]);
            }
        }
    }
}

proof fn lemma_points_push(v: Seq<Interval>, w: Seq<Interval>, x: Interval)
    requires
        points(v) == points(w),
    ensures
        points(v.push(x)) =~= points(w.push(x)),
{
    lemma_points_union(v, x);
    lemma_points_union(w, x);
}

proof fn lemma_points_union(v: Seq<Interval>, x: Interval)
    ensures
        points(v.push(x)) =~= points(v) + vstd::set_lib::set_int_range(x.from as int, x.to as int),
{
    let a = v.push(x);
    let b = points(v) + vstd::set_lib::set_int_range(x.from as int, x.to as int);
    assert forall|p: int| points(a).contains(p) == b.contains(p) by {
        if points(a).contains(p) {
            let i = choose|i: int| 0 <= i < a.len() && (#[trigger] a[i]).holds(p);
            if i < v.len() {
                assert(v[i] == a[i]);
            }
        }
        if points(v).contains(p) {
            let i = choose|i: int| 0 <= i < v.len() && (#[trigger] v[i]).holds(p);
            assert(a[i] == v[i]);
        }
        if x.holds(p) {
            assert(a[v.len() as int].holds(p));
        }
    }
}

fn sort_intervals(v: &[Interval]) -> (r: Vec<Interval>)
    requires
        all_wf(v@),
    ensures
        r@.len() == v@.len(),
        sorted(r@),
        all_wf(r@),
        points(r@) == points(v@),
{
    let mut out: Vec<Interval> = Vec::new();
    assert(v@.take(0) =~= out@);
    for i in 0..v.len()
        invariant
            all_wf(v@),
            out@.len() == i,
            sorted(out@),
            all_wf(out@),
            points(out@) == points(v@.take(i as int)),
    {
        let x: Interval = v[i];
        let mut at: usize = out.len();
        while at > 0 && out[at - 1].from > x.from
            invariant
                at <= out@.len(),
                forall|k: int| at <= k < out@.len() ==> (#[trigger] out@[k]).from > x.from,
            decreases at,
        {
            at = at - 1;
        }
        let ghost before = out@;
        out.insert(at, x);
        proof {
            assert(forall|k: int| 0 <= k < at ==> (#[trigger] before[k]).from <= x.from) by {
                if at > 0 {
                    assert(before[at - 1].from <= x.from);
                }
            }
            lemma_points_insert(before, at as int, x);
            lemma_points_push(before, v@.take(i as int), x);
            assert(v@.take(i as int + 1) =~= v@.take(i as int).push(x));
        }
    }
    assert(v@.take(v@.len() as int) =~= v@);
    out
}

/// How many points intervals hold together.
pub fn merged_interval_duration(v: &[Interval]) -> (r: i128)
    requires
        all_wf(v@),
    ensures
        points(v@).finite(),
        r == points(v@).len(),
        0 <= r < 2 * BOUND,
{
    if v.len() == 0 {
        assert(points(v@) =~= Set::<int>::empty());
        return 0;
    }
    let s: Vec<Interval> = sort_intervals(v);
    let n: usize = s.len();
    assert(s@[0].wf());
    let first: i128 = s[0].from;
    let mut from: i128 = s[0].from;
    let mut to: i128 = s[0].to;
    let mut covered: i128 = 0;
    let ghost mut past: Set<int> = Set::empty();
    proof {
        let none = Seq::<Interval>::empty();
        lemma_points_union(none, s@[0]);
        assert(none.push(s@[0]) =~= s@.take(1));
        assert(points(none) =~= Set::<int>::empty());
        assert(points(s@.take(1)) =~= past + vstd::set_lib::set_int_range(from as int, to as int));
    }
    for i in 1..n
        invariant
            n == s@.len(),
            sorted(s@),
            all_wf(s@),
            first == s@[0].from,
            -BOUND < first <= from < to < BOUND,
            from <= s@[i - 1].from,
            past.finite(),
            covered == past.len(),
            0 <= covered <= from - first,
            forall|x: int| past.contains(x) ==> x < from,
            points(s@.take(i as int)) == past + vstd::set_lib::set_int_range(
                from as int,
                to as int,
            ),
    {
        let x: Interval = s[i];
        let ghost cur = vstd::set_lib::set_int_range(from as int, to as int);
        let ghost next = vstd::set_lib::set_int_range(x.from as int, x.to as int);
        proof {
            assert(s@[i as int].wf());
            assert(s@[i - 1].from <= s@[i as int].from);
            lemma_points_union(s@.take(i as int), x);
            assert(s@.take(i as int + 1) =~= s@.take(i as int).push(x));
        }
        if x.from <= to {
            if x.to > to {
                to = x.to;
            }
            assert(past + cur + next =~= past + vstd::set_lib::set_int_range(
                from as int,
                to as int,
            ));
        } else {
            proof {
                vstd::set_lib::lemma_int_range(from as int, to as int);
                vstd::set_lib::lemma_set_disjoint_lens(past, cur);
                assert(past.disjoint(cur));
                past = past + cur;
            }
            covered = covered + (to - from);
            from = x.from;
            to = x.to;
        }
    }
    proof {
        let cur = vstd::set_lib::set_int_range(from as int, to as int);
        vstd::set_lib::lemma_int_range(from as int, to as int);
        vstd::set_lib::lemma_set_disjoint_lens(past, cur);
        assert(past.disjoint(cur));
        assert(s@.take(n as int) =~= s@);
    }
    covered + (to - from)
}

} // verus!
