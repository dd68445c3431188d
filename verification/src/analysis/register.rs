//! Register-change summarization.
//!
//! Register values live in register-set snapshots rather than in the event
//! stream, so this analysis is a small stateful helper fed with successive
//! register sets (typically one per stop).
use vstd::prelude::*;
use crate::bind_core::model::{RegisterSet, RegisterChange, diff_spec, changes_view, same_register_set};
use crate::analysis::tally::{
    tally_view, tally_all, tally_bump, tally_index, tally_add, rank_tallies, ranked_order, counts_occurrences, count_in,
    lemma_reordered_tally, lemma_tally_all_counts, occurrences, tally_sound,
};

verus! {

/// Names of the registers that changed from `prev` to `current`; nothing
/// without a previous snapshot of the same thread.
pub open spec fn churned(prev: Option<RegisterSet>, current: RegisterSet) -> Seq<Seq<char>> {
    match prev {
        Some(p) => if p.thread_id == current.thread_id {
            diff_spec(current.registers@, p.registers@).map_values(|c: (Seq<char>, u64, u64)| c.0)
        } else {
            Seq::empty()
        },
        None => Seq::empty(),
    }
}

/// Every counter can still take `slack` more increments.
pub open spec fn counts_below(s: Seq<(Seq<char>, u64)>, slack: int) -> bool {
    forall|i: int| 0 <= i < s.len() ==> (#[trigger] s[i]).1 + slack <= u64::MAX
}

proof fn lemma_diff_len(newer: Seq<crate::bind_core::model::Register>, older: Seq<crate::bind_core::model::Register>)
    ensures
        diff_spec(newer, older).len() <= newer.len(),
    decreases newer.len(),
{
    if newer.len() > 0 {
        lemma_diff_len(newer.drop_last(), older);
    }
}

proof fn lemma_bump_bound(s: Seq<(Seq<char>, u64)>, n: Seq<char>, slack: int)
    requires
        slack >= 1,
        slack <= u64::MAX,
        counts_below(s, slack),
    ensures
        counts_below(tally_bump(s, n), slack - 1),
{
    crate::analysis::tally::lemma_tally_index_found(s, n, 0);
    let t = tally_bump(s, n);
    assert forall|i: int| 0 <= i < t.len() implies (#[trigger] t[i]).1 + (slack - 1) <= u64::MAX by {
        if tally_index(s, n) < 0 && i == s.len() {
            assert(t[i].1 == 1);
        } else {
            assert(s[i].1 + slack <= u64::MAX);
        }
    }
}

/// Tracks how often each register changed across stops.
pub struct RegisterChurn {
    prev: Option<RegisterSet>,
    changes: Vec<(String, u64)>,
    stops: u64,
    /// The names of every change observed, in order.
    seen: Ghost<Seq<Seq<char>>>,
}

impl RegisterChurn {
    /// The last snapshot observed.
    pub closed spec fn prev(&self) -> Option<RegisterSet> {
        self.prev
    }

    /// Change counts by register name, in the order names first changed.
    pub closed spec fn counts(&self) -> Seq<(Seq<char>, u64)> {
        tally_view(self.changes@)
    }

    /// Snapshots observed so far.
    pub closed spec fn stop_count(&self) -> u64 {
        self.stops
    }

    /// The names of every change observed so far, in order.
    pub closed spec fn history(&self) -> Seq<Seq<char>> {
        self.seen@
    }

    pub fn new() -> (r: RegisterChurn)
        ensures
            r.prev() is None,
            r.counts() == Seq::<(Seq<char>, u64)>::empty(),
            r.stop_count() == 0,
            r.history() == Seq::<Seq<char>>::empty(),
            counts_occurrences(r.counts(), r.history()),
    {
        let r = RegisterChurn { prev: None, changes: Vec::new(), stops: 0, seen: Ghost(Seq::empty()) };
        assert(tally_view(r.changes@) =~= Seq::<(Seq<char>, u64)>::empty());
        r
    }

    /// Feeds the next register snapshot; returns the names that changed, in
    /// the snapshot's register order.
    pub fn observe(&mut self, current: &RegisterSet) -> (r: Vec<String>)
        requires
            old(self).stop_count() < u64::MAX,
            counts_below(old(self).counts(), current.registers@.len() as int),
        ensures
            r@.map_values(|s: String| s@) == churned(old(self).prev(), *current),
            final(self).counts() == tally_all(old(self).counts(), churned(old(self).prev(), *current)),
            final(self).history() == old(self).history() + churned(old(self).prev(), *current),
            counts_occurrences(old(self).counts(), old(self).history()) ==> counts_occurrences(final(self).counts(), final(self).history()),
            final(self).stop_count() == old(self).stop_count() + 1,
            final(self).prev() is Some,
            same_register_set(final(self).prev().unwrap(), *current),
    {
        self.stops = self.stops + 1;
        let diffs: Vec<RegisterChange> = match &self.prev {
            Some(prev) => if prev.thread_id == current.thread_id {
                current.diff(prev)
            } else {
                Vec::new()
            },
            None => Vec::new(),
        };
        let reg_count: usize = current.registers.len();
        let ghost names = churned(old(self).prev(), *current);
        let ghost base = tally_view(self.changes@);
        let ghost n = current.registers@.len() as int;
        proof {
            match old(self).prev() {
                Some(p) => {
                    if p.thread_id == current.thread_id {
                        lemma_diff_len(current.registers@, p.registers@);
                    }
                },
                None => {},
            }
            assert(diffs@.len() == names.len());
            assert(reg_count as int == n);
            assert(reg_count <= usize::MAX);
            assert(n <= u64::MAX);
            assert forall|j: int| 0 <= j < diffs@.len() implies (#[trigger] diffs@[j]).name@ == names[j] by {
                assert(changes_view(diffs@)[j] == (diffs@[j].name@, diffs@[j].old_value, diffs@[j].new_value));
            }
        }
        let mut out: Vec<String> = Vec::new();
        let mut k: usize = 0;
        while k < diffs.len()
            invariant
                k <= diffs@.len(),
                diffs@.len() == names.len(),
                names.len() <= n,
                n <= u64::MAX,
                n == current.registers@.len(),
                self.stops == old(self).stops + 1,
                self.seen@ == old(self).seen@,
                base == tally_view(old(self).changes@),
                forall|j: int| 0 <= j < diffs@.len() ==> (#[trigger] diffs@[j]).name@ == names[j],
                out@.map_values(|s: String| s@) == names.take(k as int),
                tally_view(self.changes@) == tally_all(base, names.take(k as int)),
                counts_below(tally_view(self.changes@), n - k),
            decreases diffs@.len() - k,
        {
            let name = diffs[k].name.clone();
            proof {
                assert(counts_below(tally_view(self.changes@), n - k));
                assert forall|i: int| 0 <= i < self.changes@.len() && (#[trigger] self.changes@[i]).0@ == name@
                    implies self.changes@[i].1 < u64::MAX by {
                    assert(tally_view(self.changes@)[i].1 == self.changes@[i].1);
                }
                lemma_bump_bound(tally_view(self.changes@), name@, n - k);
            }
            tally_add(&mut self.changes, name.as_str());
            out.push(name);
            proof {
                assert(names.take(k + 1).drop_last() =~= names.take(k as int));
                assert(out@.map_values(|s: String| s@) =~= names.take(k + 1));
            }
            k = k + 1;
        }
        proof {
            assert(names.take(diffs@.len() as int) =~= names);
            if counts_occurrences(base, old(self).seen@) {
                assert forall|i: int| 0 <= i < base.len() implies (#[trigger] base[i]).1 + names.len() <= u64::MAX by {
                    assert(base[i].1 + n <= u64::MAX);
                }
                lemma_tally_all_counts(base, old(self).seen@, names);
            }
        }
        self.seen = Ghost(self.seen@ + names);
        self.prev = Some(current.dup());
        out
    }

    /// Registers ordered by how often they changed (most first, ties by
    /// name): each changed register once, with the number of times it
    /// changed.
    pub fn ranked(&self) -> (r: Vec<(String, u64)>)
        ensures
            ranked_order(tally_view(r@)),
            tally_view(r@).to_multiset() == self.counts().to_multiset(),
            counts_occurrences(self.counts(), self.history()) ==> {
                let v = tally_view(r@);
                &&& tally_sound(v)
                &&& forall|i: int| 0 <= i < v.len() ==> (#[trigger] v[i]).1 == occurrences(self.history(), v[i].0)
                &&& forall|n: Seq<char>| #[trigger] occurrences(self.history(), n) >= 1
                    ==> exists|i: int| 0 <= i < v.len() && (#[trigger] v[i]).0 == n
            },
    {
        let r = rank_tallies(&self.changes);
        proof {
            if counts_occurrences(self.counts(), self.history()) {
                let v = tally_view(r@);
                lemma_reordered_tally(self.counts(), v);
                assert forall|n: Seq<char>| #[trigger] occurrences(self.history(), n) >= 1
                    implies exists|i: int| 0 <= i < v.len() && (#[trigger] v[i]).0 == n by {
                    assert(count_in(self.counts(), n) >= 1);
                }
            }
        }
        r
    }

    pub fn stops(&self) -> (r: u64)
        ensures
            r == self.stop_count(),
    {
        self.stops
    }
}

} // verus!
