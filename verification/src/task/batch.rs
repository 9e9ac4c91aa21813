//! Downloads end in any order; segments are handed on in theirs.

use vstd::prelude::*;

use crate::time;

verus! {

/// A download that ended.
pub struct Entry<T> {
    pub num: u64,
    pub item: T,
}

/// Segments that are fetched together.
pub struct Batch<T> {
    order: Vec<u64>,
    pending: Vec<Entry<T>>,
    failed: Vec<u64>,
    next: usize,
    next_number: u64,
}

/// What a value of [`Batch`] holds.
#[verifier::ext_equal]
pub struct BatchView<T> {
    /// The numbers of the segments, in the order in which they are handed on.
    pub order: Seq<u64>,
    /// What was fetched and not handed on yet.
    pub pending: Map<u64, T>,
    /// What could not be fetched.
    pub failed: Set<u64>,
    /// How many were handed on and processed.
    pub next: nat,
    /// The number behind the last that was processed.
    pub next_number: u64,
}

/// What comes next.
pub enum Step<T> {
    /// Nothing until another download ends.
    Wait,
    /// This segment is processed.
    Process(u64, T),
    /// This segment could not be fetched.
    Lost(u64),
}

spec fn found<T>(e: Seq<Entry<T>>, num: u64) -> Option<T>
    decreases e.len(),
{
    if e.len() == 0 {
        None
    } else if e.last().num == num {
        Some(e.last().item)
    } else {
        found(e.drop_last(), num)
    }
}

spec fn by_number<T>(e: Seq<Entry<T>>) -> Map<u64, T> {
    Map::new(|n: u64| found(e, n) is Some, |n: u64| found(e, n)->0)
}

spec fn distinct<T>(e: Seq<Entry<T>>) -> bool {
    forall|i: int, j: int| 0 <= i < j < e.len() ==> (#[trigger] e[i]).num != (#[trigger] e[j]).num
}

proof fn lemma_found<T>(e: Seq<Entry<T>>, num: u64)
    requires
        distinct(e),
    ensures
        forall|i: int| 0 <= i < e.len() && (#[trigger] e[i]).num == num ==> found(e, num) == Some(
            e[i].item,
        ),
        found(e, num) is Some ==> exists|i: int| 0 <= i < e.len() && (#[trigger] e[i]).num == num,
    decreases e.len(),
{
    if e.len() > 0 {
        let d = e.drop_last();
        assert(forall|i: int| 0 <= i < d.len() ==> d[i] == e[i]);
        lemma_found(d, num);
        if e.last().num != num && found(e, num) is Some {
            let i = choose|i: int| 0 <= i < d.len() && (#[trigger] d[i]).num == num;
            assert(e[i].num == num);
        }
    }
}

proof fn lemma_removed<T>(e: Seq<Entry<T>>, k: int)
    requires
        distinct(e),
        0 <= k < e.len(),
    ensures
        distinct(e.remove(k)),
        by_number(e.remove(k)) == by_number(e).remove(e[k].num),
{
    let r = e.remove(k);
    assert(forall|i: int| 0 <= i < r.len() ==> r[i] == e[if i < k {
        i
    } else {
        i + 1
    }]);
    assert forall|n: u64| found(r, n) == (if n == e[k].num {
        None
    } else {
        found(e, n)
    }) by {
        lemma_found(r, n);
        lemma_found(e, n);
        if n != e[k].num && found(e, n) is Some {
            let i = choose|i: int| 0 <= i < e.len() && (#[trigger] e[i]).num == n;
            let j = if i < k {
                i
            } else {
                i - 1
            };
            assert(r[j].num == n);
        }
        if found(r, n) is Some {
            let i = choose|i: int| 0 <= i < r.len() && (#[trigger] r[i]).num == n;
            let j = if i < k {
                i
            } else {
                i + 1
            };
            assert(e[j].num == n);
        }
    }
    assert(by_number(r) =~= by_number(e).remove(e[k].num));
}

proof fn lemma_pushed<T>(e: Seq<Entry<T>>, x: Entry<T>)
    requires
        distinct(e),
        !by_number(e).dom().contains(x.num),
    ensures
        distinct(e.push(x)),
        by_number(e.push(x)) == by_number(e).insert(x.num, x.item),
{
    let p = e.push(x);
    assert(p.drop_last() =~= e);
    assert forall|i: int, j: int| 0 <= i < j < p.len() implies (#[trigger] p[i]).num != (
    #[trigger] p[j]).num by {
        if j == e.len() && e[i].num == x.num {
            lemma_found(e, x.num);
            assert(found(e, x.num) is Some);
        }
    }
    assert forall|n: u64| found(p, n) == (if n == x.num {
        Some(x.item)
    } else {
        found(e, n)
    }) by {}
    assert(by_number(p) =~= by_number(e).insert(x.num, x.item));
}

impl<T> BatchView<T> {
    /// Segments of which nothing was fetched yet.
    pub open spec fn start(order: Seq<u64>) -> Self {
        BatchView {
            order,
            pending: Map::empty(),
            failed: Set::empty(),
            next: 0,
            next_number: if order.len() > 0 {
                order[0]
            } else {
                0
            },
        }
    }

    /// Once a segment was fetched.
    pub open spec fn with_item(self, num: u64, item: T) -> Self {
        BatchView { pending: self.pending.insert(num, item), ..self }
    }

    /// Once a segment could not be fetched.
    pub open spec fn without(self, num: u64) -> Self {
        BatchView { failed: self.failed.insert(num), ..self }
    }

    /// The segment that is up: whatever came before it was processed.
    pub open spec fn expected(self) -> u64 {
        self.order[self.next as int]
    }

    /// Once the segment that is up was processed.
    pub open spec fn advanced(self) -> Self {
        BatchView {
            next: self.next + 1,
            next_number: time::sum64(self.expected(), 1),
            ..self
        }
    }

    /// Where a source goes on that leaves out the segment that is up.
    pub open spec fn behind_lost(self) -> u64 {
        if self.next + 1 < self.order.len() {
            self.order[self.next as int + 1]
        } else if self.expected() == u64::MAX {
            u64::MAX
        } else {
            (self.expected() + 1) as u64
        }
    }
}

impl<T> Batch<T> {
    /// No number is pending twice.
    pub closed spec fn wf(&self) -> bool {
        &&& distinct(self.pending@)
        &&& self.next <= self.order@.len()
    }

    pub closed spec fn view(&self) -> BatchView<T> {
        BatchView {
            order: self.order@,
            pending: by_number(self.pending@),
            failed: self.failed@.to_set(),
            next: self.next as nat,
            next_number: self.next_number,
        }
    }

    /// The segments of a batch, by their numbers.
    pub fn new(order: Vec<u64>) -> (r: Self)
        ensures
            r.wf(),
            r@ == BatchView::<T>::start(order@),
    {
        let next_number: u64 = if order.len() > 0 {
            order[0]
        } else {
            0
        };
        let r = Batch { order, pending: Vec::new(), failed: Vec::new(), next: 0, next_number };
        assert(by_number(r.pending@) =~= Map::<u64, T>::empty());
        assert(r.failed@.to_set() =~= Set::<u64>::empty());
        r
    }

    fn take(&mut self, num: u64) -> (r: Option<T>)
        requires
            old(self).wf(),
        ensures
            final(self).wf(),
            match r {
                Some(x) => {
                    &&& old(self)@.pending.dom().contains(num)
                    &&& x == old(self)@.pending[num]
                    &&& final(self)@ == (BatchView {
                        pending: old(self)@.pending.remove(num),
                        ..old(self)@
                    })
                },
                None => !old(self)@.pending.dom().contains(num) && final(self)@ == old(self)@,
            },
    {
        let n: usize = self.pending.len();
        let mut k: usize = 0;
        while k < n && self.pending[k].num != num
            invariant
                n == self.pending@.len(),
                k <= n,
                forall|i: int| 0 <= i < k ==> (#[trigger] self.pending@[i]).num != num,
            decreases n - k,
        {
            k = k + 1;
        }
        proof {
            lemma_found(self.pending@, num);
        }
        if k < n {
            proof {
                lemma_removed(self.pending@, k as int);
            }
            let e: Entry<T> = self.pending.remove(k);
            Some(e.item)
        } else {
            None
        }
    }

    /// Takes a segment that was fetched.
    pub fn arrived(&mut self, num: u64, item: T)
        requires
            old(self).wf(),
        ensures
            final(self).wf(),
            final(self)@ == old(self)@.with_item(num, item),
    {
        let before: Option<T> = self.take(num);
        let ghost e = self.pending@;
        proof {
            lemma_pushed(e, Entry { num, item });
        }
        self.pending.push(Entry { num, item });
        assert(self@.pending =~= old(self)@.pending.insert(num, item));
    }

    /// Takes note of a segment that could not be fetched.
    pub fn lost(&mut self, num: u64)
        requires
            old(self).wf(),
        ensures
            final(self).wf(),
            final(self)@ == old(self)@.without(num),
    {
        let ghost before = self.failed@;
        self.failed.push(num);
        proof {
            assert(before.push(num).to_set() =~= before.to_set().insert(num)) by {
                assert forall|x: u64| before.push(num).to_set().contains(x)
                    == before.to_set().insert(num).contains(x) by {
                    if before.contains(x) {
                        let i = choose|i: int| 0 <= i < before.len() && before[i] == x;
                        assert(before.push(num)[i] == x);
                    }
                    if before.push(num).contains(x) && x != num {
                        let i = choose|i: int|
                            0 <= i < before.push(num).len() && before.push(num)[i] == x;
                        assert(before[i] == x);
                    }
                    assert(before.push(num)[before.len() as int] == num);
                }
            }
        }
    }

    fn is_lost(&self, num: u64) -> (r: bool)
        ensures
            r == self@.failed.contains(num),
    {
        for i in 0..self.failed.len()
            invariant
                forall|j: int| 0 <= j < i ==> self.failed@[j] != num,
        {
            if self.failed[i] == num {
                assert(self.failed@.contains(self.failed@[i as int]));
                return true;
            }
        }
        false
    }

    /// What comes next. A batch that was cancelled hands nothing on.
    pub fn step(&mut self, cancelled: bool) -> (r: Step<T>)
        requires
            old(self).wf(),
        ensures
            final(self).wf(),
            ({
                let b = old(self)@;
                let up = b.next < b.order.len();
                match r {
                    Step::Lost(n) => {
                        &&& up
                        &&& b.failed.contains(b.expected())
                        &&& n == b.expected()
                        &&& final(self)@ == b
                    },
                    Step::Process(n, x) => {
                        &&& up
                        &&& !b.failed.contains(b.expected())
                        &&& !cancelled
                        &&& n == b.expected()
                        &&& b.pending.dom().contains(n)
                        &&& x == b.pending[n]
                        &&& final(self)@ == (BatchView { pending: b.pending.remove(n), ..b })
                    },
                    Step::Wait => {
                        &&& final(self)@ == b
                        &&& !up || !b.failed.contains(b.expected()) && (cancelled
                            || !b.pending.dom().contains(b.expected()))
                    },
                }
            }),
    {
        if self.next >= self.order.len() {
            return Step::Wait;
        }
        let num: u64 = self.order[self.next];
        if self.is_lost(num) {
            return Step::Lost(num);
        }
        if cancelled {
            return Step::Wait;
        }
        match self.take(num) {
            Some(x) => Step::Process(num, x),
            None => Step::Wait,
        }
    }

    /// Takes note that the segment that was up was processed.
    pub fn processed(&mut self)
        requires
            old(self).wf(),
            old(self)@.next < old(self)@.order.len(),
        ensures
            final(self).wf(),
            final(self)@ == old(self)@.advanced(),
    {
        let num: u64 = self.order[self.next];
        let n: usize = self.order.len();
        assert(self.next < n);
        self.next = self.next + 1;
        self.next_number = time::add64(num, 1);
    }

    /// Whether every segment was processed.
    pub fn is_done(&self) -> (r: bool)
        requires
            self.wf(),
        ensures
            r == (self@.next == self@.order.len()),
    {
        self.next == self.order.len()
    }

    /// The number behind the last that was processed.
    pub fn next_number(&self) -> (r: u64)
        ensures
            r == self@.next_number,
    {
        self.next_number
    }

    /// Where a source goes on that leaves out the segment that is up.
    pub fn skip_to(&self) -> (r: u64)
        requires
            self.wf(),
            self@.next < self@.order.len(),
        ensures
            r == self@.behind_lost(),
    {
        hls_skip_to_after(self.order.as_slice(), self.next, self.order[self.next])
    }
}

/// Where a source goes on that leaves out the segment `sequence` at `index`: at the next one, or
/// behind it.
pub fn hls_skip_to_after(order: &[u64], index: usize, sequence: u64) -> (r: u64)
    ensures
        r == if index + 1 < order@.len() {
            order@[index + 1]
        } else if sequence == u64::MAX {
            u64::MAX
        } else {
            (sequence + 1) as u64
        },
{
    if index < order.len() && index + 1 < order.len() {
        order[index + 1]
    } else if sequence == u64::MAX {
        u64::MAX
    } else {
        sequence + 1
    }
}

/// The numbers that a run of a batch processes: while the segment that is up is there, and not
/// lost, it is processed.
pub open spec fn run<T>(b: BatchView<T>) -> Seq<u64>
    decreases b.order.len() - b.next,
{
    if b.next < b.order.len() && !b.failed.contains(b.expected()) && b.pending.dom().contains(
        b.expected(),
    ) {
        seq![b.expected()] + run(
            BatchView { pending: b.pending.remove(b.expected()), ..b }.advanced(),
        )
    } else {
        Seq::empty()
    }
}

/// However the downloads end, segments are processed in their order and without gaps: what a run
/// processes is the next piece of the order.
pub proof fn law_batch_keeps_order<T>(b: BatchView<T>)
    requires
        b.next <= b.order.len(),
    ensures
        run(b).len() <= b.order.len() - b.next,
        run(b) == b.order.subrange(b.next as int, (b.next + run(b).len()) as int),
    decreases b.order.len() - b.next,
{
    if b.next < b.order.len() && !b.failed.contains(b.expected()) && b.pending.dom().contains(
        b.expected(),
    ) {
        let n = BatchView { pending: b.pending.remove(b.expected()), ..b }.advanced();
        law_batch_keeps_order(n);
        assert(run(b) =~= b.order.subrange(b.next as int, (b.next + run(b).len()) as int));
    } else {
        assert(run(b) =~= b.order.subrange(b.next as int, (b.next + run(b).len()) as int));
    }
}

} // verus!
