//! A bounded ring buffer that counts what it drops.
use vstd::prelude::*;
use std::collections::VecDeque;
use std::collections::vec_deque::Iter;
use vstd::std_specs::iter::IteratorSpec;

verus! {

broadcast use vstd::std_specs::vecdeque::group_vec_dequeue_axioms;

pub struct RingBuffer<T> {
    items: VecDeque<T>,
    capacity: usize,
    dropped: u64,
    total: u64,
    /// Everything pushed since creation or the last `clear`, oldest first.
    pushed: Ghost<Seq<T>>,
}

pub open spec fn min_nat(a: nat, b: nat) -> nat {
    if a <= b {
        a
    } else {
        b
    }
}

impl<T> RingBuffer<T> {
    /// The items currently held, oldest first.
    pub closed spec fn retained(&self) -> Seq<T> {
        self.items@
    }

    /// Every item pushed since creation or the last `clear`, oldest first.
    pub closed spec fn history(&self) -> Seq<T> {
        self.pushed@
    }

    pub closed spec fn cap(&self) -> nat {
        self.capacity as nat
    }

    pub closed spec fn total_count(&self) -> nat {
        self.total as nat
    }

    pub closed spec fn dropped_count(&self) -> nat {
        self.dropped as nat
    }

    pub closed spec fn wf(&self) -> bool {
        &&& self.capacity >= 1
        &&& self.items@.len() == min_nat(self.capacity as nat, self.pushed@.len())
        &&& self.items@ == self.pushed@.skip(self.pushed@.len() - self.items@.len())
        &&& self.total == self.pushed@.len()
        &&& self.dropped == self.pushed@.len() - self.items@.len()
    }

    /// The buffer holds exactly the most recent `min(capacity, total)` pushes, and
    /// `dropped + len == total`.
    pub proof fn lemma_retains_suffix(&self)
        requires
            self.wf(),
        ensures
            self.retained().len() == min_nat(self.cap(), self.history().len()),
            self.retained() == self.history().skip(self.history().len() - self.retained().len()),
            self.dropped_count() + self.retained().len() == self.total_count(),
            self.total_count() == self.history().len(),
            self.retained().len() <= self.cap(),
            self.cap() >= 1,
    {
    }

    /// A buffer holding at most `capacity` items (at least 1).
    pub fn new(capacity: usize) -> (r: Self)
        ensures
            r.wf(),
            r.cap() == if capacity >= 1 {
                capacity as nat
            } else {
                1
            },
            r.history().len() == 0,
            r.retained().len() == 0,
            r.total_count() == 0,
            r.dropped_count() == 0,
    {
        let reserve = if capacity < 1024 {
            capacity
        } else {
            1024
        };
        let cap = if capacity >= 1 {
            capacity
        } else {
            1
        };
        let r = RingBuffer {
            items: VecDeque::with_capacity(reserve),
            capacity: cap,
            dropped: 0,
            total: 0,
            pushed: Ghost(Seq::empty()),
        };
        assert(r.items@ =~= r.pushed@.skip(0));
        r
    }

    /// Pushes an item, evicting (and counting) the oldest if full.
    pub fn push(&mut self, item: T)
        requires
            old(self).wf(),
            old(self).total_count() < u64::MAX,
        ensures
            final(self).wf(),
            final(self).cap() == old(self).cap(),
            final(self).history() == old(self).history().push(item),
            final(self).total_count() == old(self).total_count() + 1,
            final(self).retained() == if old(self).retained().len() == old(self).cap() {
                old(self).retained().drop_first().push(item)
            } else {
                old(self).retained().push(item)
            },
            final(self).dropped_count() == old(self).dropped_count() + if old(self).retained().len()
                == old(self).cap() {
                1nat
            } else {
                0nat
            },
    {
        let ghost h = self.pushed@;
        let ghost it = item;
        self.total = self.total + 1;
        if self.items.len() == self.capacity {
            self.items.pop_front();
            self.dropped = self.dropped + 1;
        }
        self.items.push_back(item);
        self.pushed = Ghost(h.push(it));
        proof {
            let h2 = h.push(it);
            let old_len = self.items@.len();
            assert(self.items@ =~= h2.skip(h2.len() - self.items@.len()));
        }
    }

    pub fn len(&self) -> (n: usize)
        requires
            self.wf(),
        ensures
            n == self.retained().len(),
    {
        self.items.len()
    }

    pub fn is_empty(&self) -> (b: bool)
        requires
            self.wf(),
        ensures
            b == (self.retained().len() == 0),
    {
        self.items.len() == 0
    }

    pub fn capacity(&self) -> (n: usize)
        requires
            self.wf(),
        ensures
            n == self.cap(),
    {
        self.capacity
    }

    /// Total items ever pushed (retained + dropped).
    pub fn total(&self) -> (n: u64)
        requires
            self.wf(),
        ensures
            n == self.total_count(),
    {
        self.total
    }

    /// Items evicted because the buffer was full.
    pub fn dropped(&self) -> (n: u64)
        requires
            self.wf(),
        ensures
            n == self.dropped_count(),
    {
        self.dropped
    }

    /// The retained items, oldest first.
    pub fn iter(&self) -> (it: Iter<'_, T>)
        requires
            self.wf(),
        ensures
            it.remaining() == self.retained().map_values(|x: T| &x),
    {
        let it = self.items.iter();
        proof {
            assert(self.items@.as_ref() =~= self.retained().map_values(|x: T| &x));
        }
        it
    }

    /// The most recent `n` items, oldest first.
    pub fn recent(&self, n: usize) -> (r: Vec<&T>)
        requires
            self.wf(),
        ensures
            r@.len() == min_nat(n as nat, self.retained().len()),
            forall|i: int|
                0 <= i < r@.len() ==> *r@[i] == self.retained()[self.retained().len() - r@.len()
                    + i],
    {
        let len = self.items.len();
        let skip = if len > n {
            len - n
        } else {
            0
        };
        let mut r: Vec<&T> = Vec::new();
        let mut i = skip;
        while i < len
            invariant
                len == self.items@.len(),
                skip <= i <= len,
                r@.len() == i - skip,
                forall|j: int| 0 <= j < r@.len() ==> *r@[j] == self.items@[skip + j],
            decreases len - i,
        {
            r.push(&self.items[i]);
            i = i + 1;
        }
        r
    }

    /// The newest item.
    pub fn last(&self) -> (r: Option<&T>)
        requires
            self.wf(),
        ensures
            self.retained().len() == 0 ==> r is None,
            self.retained().len() > 0 ==> r == Some(&self.retained().last()),
    {
        let len = self.items.len();
        if len == 0 {
            None
        } else {
            Some(&self.items[len - 1])
        }
    }

    /// Drops every item and resets both counters.
    pub fn clear(&mut self)
        requires
            old(self).wf(),
        ensures
            final(self).wf(),
            final(self).cap() == old(self).cap(),
            final(self).retained().len() == 0,
            final(self).history().len() == 0,
            final(self).total_count() == 0,
            final(self).dropped_count() == 0,
    {
        self.items.clear();
        self.dropped = 0;
        self.total = 0;
        self.pushed = Ghost(Seq::empty());
        assert(self.items@ =~= self.pushed@.skip(0));
    }
}

} // verus!
