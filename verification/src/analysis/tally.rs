//! Named counters: bumping them and ranking them.
use vstd::prelude::*;
use vstd::seq_lib::group_to_multiset_ensures;
use crate::text::{chars_of, chars_eq, lex_lt, lemma_lex_order, lex_less};

verus! {

/// The counters by name, in the order names were first counted.
pub open spec fn tally_view(v: Seq<(String, u64)>) -> Seq<(Seq<char>, u64)> {
    v.map_values(|p: (String, u64)| (p.0@, p.1))
}

/// The position of the first counter named `n` at or after `i`, or -1.
pub open spec fn tally_index_from(s: Seq<(Seq<char>, u64)>, n: Seq<char>, i: int) -> int
    decreases s.len() - i,
{
    if i < 0 || i >= s.len() {
        -1
    } else if s[i].0 == n {
        i
    } else {
        tally_index_from(s, n, i + 1)
    }
}

pub open spec fn tally_index(s: Seq<(Seq<char>, u64)>, n: Seq<char>) -> int {
    tally_index_from(s, n, 0)
}

/// Counts one more `n`: its counter goes up, or a counter of 1 is appended.
pub open spec fn tally_bump(s: Seq<(Seq<char>, u64)>, n: Seq<char>) -> Seq<(Seq<char>, u64)> {
    let k = tally_index(s, n);
    if k >= 0 {
        s.update(k, (n, (s[k].1 + 1) as u64))
    } else {
        s.push((n, 1u64))
    }
}

/// Counts every name of `names`, in order.
pub open spec fn tally_all(s: Seq<(Seq<char>, u64)>, names: Seq<Seq<char>>) -> Seq<(Seq<char>, u64)>
    decreases names.len(),
{
    if names.len() == 0 {
        s
    } else {
        tally_bump(tally_all(s, names.drop_last()), names.last())
    }
}

/// `a` ranks ahead of `b`: a higher count, or the same count and a smaller name.
pub open spec fn ranks_before(a: (Seq<char>, u64), b: (Seq<char>, u64)) -> bool {
    a.1 > b.1 || (a.1 == b.1 && lex_lt(a.0, b.0))
}

/// Ordered most frequent first, ties by name.
pub open spec fn ranked_order(s: Seq<(Seq<char>, u64)>) -> bool {
    forall|i: int, j: int| 0 <= i < j < s.len() ==> !ranks_before(#[trigger] s[j], #[trigger] s[i])
}

pub proof fn lemma_ranks_before(a: (Seq<char>, u64), b: (Seq<char>, u64), c: (Seq<char>, u64))
    ensures
        ranks_before(a, b) ==> !ranks_before(b, a),
        ranks_before(a, b) && ranks_before(b, c) ==> ranks_before(a, c),
{
    lemma_lex_order(a.0, b.0, c.0);
}

proof fn lemma_tally_index(s: Seq<(Seq<char>, u64)>, n: Seq<char>, i: int)
    requires
        0 <= i <= s.len(),
        forall|j: int| 0 <= j < i ==> (#[trigger] s[j]).0 != n,
    ensures
        tally_index(s, n) == tally_index_from(s, n, i),
    decreases i,
{
    if i > 0 {
        lemma_tally_index(s, n, i - 1);
    }
}

/// Where `tally_index_from` points.
pub proof fn lemma_tally_index_found(s: Seq<(Seq<char>, u64)>, n: Seq<char>, i: int)
    ensures
        -1 <= tally_index_from(s, n, i) < s.len(),
        tally_index_from(s, n, i) >= 0 ==> s[tally_index_from(s, n, i)].0 == n,
    decreases s.len() - i,
{
    if 0 <= i < s.len() && s[i].0 != n {
        lemma_tally_index_found(s, n, i + 1);
    }
}

/// Counts one more `name`.
pub fn tally_add(v: &mut Vec<(String, u64)>, name: &str)
    requires
        forall|i: int| 0 <= i < old(v)@.len() ==> (#[trigger] old(v)@[i]).0@ == name@ ==> old(v)@[i].1 < u64::MAX,
    ensures
        tally_view(final(v)@) == tally_bump(tally_view(old(v)@), name@),
{
    let target = chars_of(name);
    let ghost s = tally_view(v@);
    let mut i: usize = 0;
    while i < v.len()
        invariant
            i <= v@.len(),
            target@ == name@,
            s == tally_view(v@),
            s == tally_view(old(v)@),
            forall|j: int| 0 <= j < v@.len() ==> (#[trigger] v@[j]).0@ == name@ ==> v@[j].1 < u64::MAX,
            forall|j: int| 0 <= j < i ==> (#[trigger] s[j]).0 != name@,
        decreases v@.len() - i,
    {
        let c = chars_of(v[i].0.as_str());
        if chars_eq(c.as_slice(), target.as_slice()) {
            proof {
                lemma_tally_index(s, name@, i as int);
                assert(s[i as int].0 == name@);
                assert(tally_index_from(s, name@, i as int) == i);
                assert(v@[i as int].0@ == name@);
            }
            let n = v[i].1 + 1;
            let nm = v[i].0.clone();
            v.set(i, (nm, n));
            proof {
                assert(tally_view(v@) =~= s.update(i as int, (name@, n)));
            }
            return;
        }
        i = i + 1;
    }
    proof {
        lemma_tally_index(s, name@, i as int);
    }
    let owned = crate::text::string_of(target.as_slice());
    v.push((owned, 1));
    proof {
        assert(tally_view(v@) =~= s.push((name@, 1u64)));
    }
}

fn pair_before(a: &(String, u64), b: &(String, u64)) -> (r: bool)
    ensures
        r == ranks_before((a.0@, a.1), (b.0@, b.1)),
{
    if a.1 != b.1 {
        return a.1 > b.1;
    }
    let x = chars_of(a.0.as_str());
    let y = chars_of(b.0.as_str());
    lex_less(x.as_slice(), y.as_slice())
}

/// The counters ordered most frequent first, ties broken by name.
pub fn rank_tallies(items: &Vec<(String, u64)>) -> (r: Vec<(String, u64)>)
    ensures
        ranked_order(tally_view(r@)),
        tally_view(r@).to_multiset() == tally_view(items@).to_multiset(),
{
    broadcast use group_to_multiset_ensures;
    let mut out: Vec<(String, u64)> = Vec::new();
    let mut i: usize = 0;
    while i < items.len()
        invariant
            i <= items@.len(),
            ranked_order(tally_view(out@)),
            tally_view(out@).to_multiset() == tally_view(items@).take(i as int).to_multiset(),
        decreases items@.len() - i,
    {
        let x = (items[i].0.clone(), items[i].1);
        let ghost xv = (x.0@, x.1);
        let ghost before = tally_view(out@);
        let mut p: usize = 0;
        while p < out.len() && !pair_before(&x, &out[p])
            invariant
                p <= out@.len(),
                before == tally_view(out@),
                xv == (x.0@, x.1),
                forall|k: int| 0 <= k < p ==> !ranks_before(xv, #[trigger] before[k]),
            decreases out@.len() - p,
        {
            p = p + 1;
        }
        out.insert(p, x);
        proof {
            let after = tally_view(out@);
            assert(after =~= before.insert(p as int, xv));
            assert forall|a: int, b: int| 0 <= a < b < after.len()
                implies !ranks_before(#[trigger] after[b], #[trigger] after[a]) by {
                if b < p {
                    assert(after[a] == before[a] && after[b] == before[b]);
                } else if b == p {
                    assert(after[a] == before[a]);
                    lemma_ranks_before(xv, before[a], xv);
                } else if a < p {
                    assert(after[a] == before[a] && after[b] == before[b - 1]);
                } else if a == p {
                    assert(after[b] == before[b - 1]);
                    lemma_ranks_before(before[b - 1], xv, before[p as int]);
                    if b - 1 > p {
                        assert(!ranks_before(before[b - 1], before[p as int]));
                    }
                } else {
                    assert(after[a] == before[a - 1] && after[b] == before[b - 1]);
                }
            }
            assert(tally_view(items@).take(i + 1) =~= tally_view(items@).take(i as int).push(xv));
            vstd::seq_lib::to_multiset_insert(before, p as int, xv);
            vstd::seq_lib::to_multiset_build(tally_view(items@).take(i as int), xv);
            assert(tally_view(items@).take(i as int).push(xv).to_multiset()
                == tally_view(items@).take(i as int).to_multiset().insert(xv));
        }
        i = i + 1;
    }
    proof {
        assert(tally_view(items@).take(items@.len() as int) =~= tally_view(items@));
    }
    out
}

/// How often `n` occurs in `names`.
pub open spec fn occurrences(names: Seq<Seq<char>>, n: Seq<char>) -> nat
    decreases names.len(),
{
    if names.len() == 0 {
        0
    } else {
        occurrences(names.drop_last(), n) + if names.last() == n {
            1nat
        } else {
            0nat
        }
    }
}

/// One counter per name, each at least one.
pub open spec fn tally_sound(s: Seq<(Seq<char>, u64)>) -> bool {
    &&& forall|i: int, j: int| 0 <= i < j < s.len() ==> #[trigger] s[i].0 != #[trigger] s[j].0
    &&& forall|i: int| 0 <= i < s.len() ==> (#[trigger] s[i]).1 >= 1
}

/// The counter of `n`, 0 without one.
pub open spec fn count_in(s: Seq<(Seq<char>, u64)>, n: Seq<char>) -> nat {
    let k = tally_index(s, n);
    if k >= 0 {
        s[k].1 as nat
    } else {
        0
    }
}

/// `s` counts, once per name, exactly the occurrences in `names`.
pub open spec fn counts_occurrences(s: Seq<(Seq<char>, u64)>, names: Seq<Seq<char>>) -> bool {
    &&& tally_sound(s)
    &&& forall|n: Seq<char>| #[trigger] count_in(s, n) == occurrences(names, n)
}

proof fn lemma_tally_index_same_names(s: Seq<(Seq<char>, u64)>, t: Seq<(Seq<char>, u64)>, n: Seq<char>, i: int)
    requires
        s.len() == t.len(),
        forall|j: int| 0 <= j < s.len() ==> (#[trigger] s[j]).0 == t[j].0,
    ensures
        tally_index_from(s, n, i) == tally_index_from(t, n, i),
    decreases s.len() - i,
{
    if 0 <= i < s.len() {
        lemma_tally_index_same_names(s, t, n, i + 1);
    }
}

proof fn lemma_tally_index_push(s: Seq<(Seq<char>, u64)>, x: (Seq<char>, u64), n: Seq<char>, i: int)
    requires
        0 <= i <= s.len(),
    ensures
        tally_index_from(s.push(x), n, i) == if tally_index_from(s, n, i) >= 0 {
            tally_index_from(s, n, i)
        } else if x.0 == n {
            s.len() as int
        } else {
            -1
        },
    decreases s.len() - i,
{
    if i < s.len() {
        assert(s.push(x)[i] == s[i]);
        lemma_tally_index_push(s, x, n, i + 1);
    } else {
        assert(s.push(x)[i] == x);
        assert(tally_index_from(s.push(x), n, i + 1) == -1);
        assert(tally_index_from(s, n, i) == -1);
    }
}

proof fn lemma_tally_index_absent(s: Seq<(Seq<char>, u64)>, n: Seq<char>, i: int)
    requires
        0 <= i,
        tally_index_from(s, n, i) < 0,
    ensures
        forall|j: int| i <= j < s.len() ==> (#[trigger] s[j]).0 != n,
    decreases s.len() - i,
{
    if i < s.len() {
        lemma_tally_index_absent(s, n, i + 1);
    }
}

/// In a tally with one counter per name, the counter of `s[p].0` is at `p`.
proof fn lemma_tally_index_at(s: Seq<(Seq<char>, u64)>, p: int)
    requires
        tally_sound(s),
        0 <= p < s.len(),
    ensures
        tally_index(s, s[p].0) == p,
{
    assert forall|j: int| 0 <= j < p implies (#[trigger] s[j]).0 != s[p].0 by {
        assert(s[j].0 != s[p].0);
    }
    lemma_tally_index(s, s[p].0, p);
}

/// Counting one more `m` adds one to its count and keeps the others.
pub proof fn lemma_bump_counts(s: Seq<(Seq<char>, u64)>, m: Seq<char>)
    requires
        tally_sound(s),
        count_in(s, m) < u64::MAX,
    ensures
        tally_sound(tally_bump(s, m)),
        forall|n: Seq<char>| #[trigger] count_in(tally_bump(s, m), n) == count_in(s, n) + if n == m {
            1nat
        } else {
            0nat
        },
{
    lemma_tally_index_found(s, m, 0);
    let k = tally_index(s, m);
    let t = tally_bump(s, m);
    if k >= 0 {
        assert forall|j: int| 0 <= j < s.len() implies (#[trigger] s[j]).0 == t[j].0 by {}
        assert forall|n: Seq<char>| #[trigger] count_in(t, n) == count_in(s, n) + if n == m {
            1nat
        } else {
            0nat
        } by {
            lemma_tally_index_same_names(s, t, n, 0);
            lemma_tally_index_found(s, n, 0);
            if n == m {
            } else {
                let q = tally_index(s, n);
                if q == k {
                    assert(s[q].0 == n);
                }
            }
        }
        assert forall|i: int, j: int| 0 <= i < j < t.len() implies #[trigger] t[i].0 != #[trigger] t[j].0 by {
            assert(t[i].0 == s[i].0 && t[j].0 == s[j].0);
        }
    } else {
        lemma_tally_index_absent(s, m, 0);
        assert forall|n: Seq<char>| #[trigger] count_in(t, n) == count_in(s, n) + if n == m {
            1nat
        } else {
            0nat
        } by {
            lemma_tally_index_push(s, (m, 1u64), n, 0);
            lemma_tally_index_found(s, n, 0);
        }
        assert forall|i: int, j: int| 0 <= i < j < t.len() implies #[trigger] t[i].0 != #[trigger] t[j].0 by {
            if j == s.len() {
                assert(s[i].0 != m);
            } else {
                assert(t[i] == s[i] && t[j] == s[j]);
            }
        }
    }
}

proof fn lemma_occurrences_bound(a: Seq<Seq<char>>, b: Seq<Seq<char>>, n: Seq<char>)
    ensures
        occurrences(a + b, n) <= occurrences(a, n) + b.len(),
    decreases b.len(),
{
    if b.len() > 0 {
        assert((a + b).drop_last() =~= a + b.drop_last());
        lemma_occurrences_bound(a, b.drop_last(), n);
    } else {
        assert(a + b =~= a);
    }
}

/// Counting every name of `names` keeps a tally of occurrences: the counts
/// become those of the names counted before followed by `names`.
pub proof fn lemma_tally_all_counts(s: Seq<(Seq<char>, u64)>, base: Seq<Seq<char>>, names: Seq<Seq<char>>)
    requires
        counts_occurrences(s, base),
        names.len() <= u64::MAX,
        forall|i: int| 0 <= i < s.len() ==> (#[trigger] s[i]).1 + names.len() <= u64::MAX,
    ensures
        counts_occurrences(tally_all(s, names), base + names),
    decreases names.len(),
{
    if names.len() == 0 {
        assert(base + names =~= base);
    } else {
        let dl = names.drop_last();
        let m = names.last();
        lemma_tally_all_counts(s, base, dl);
        let t = tally_all(s, dl);
        lemma_occurrences_bound(base, dl, m);
        lemma_tally_index_found(s, m, 0);
        let k = tally_index(s, m);
        if k >= 0 {
            assert(s[k].1 + names.len() <= u64::MAX);
        }
        assert(count_in(s, m) + names.len() <= u64::MAX);
        assert(count_in(t, m) == occurrences(base + dl, m));
        lemma_bump_counts(t, m);
        assert((base + names).drop_last() =~= base + dl);
        assert((base + names).last() == m);
        assert forall|n: Seq<char>| #[trigger] count_in(tally_all(s, names), n) == occurrences(base + names, n) by {
            assert(count_in(t, n) == occurrences(base + dl, n));
        }
    }
}

/// A reordering of a tally with one counter per name keeps one counter per
/// name, each the count of its name, and leaves no counted name out.
pub proof fn lemma_reordered_tally(s: Seq<(Seq<char>, u64)>, r: Seq<(Seq<char>, u64)>)
    requires
        tally_sound(s),
        r.to_multiset() == s.to_multiset(),
    ensures
        tally_sound(r),
        forall|i: int| 0 <= i < r.len() ==> count_in(s, (#[trigger] r[i]).0) == r[i].1,
        forall|n: Seq<char>| #[trigger] count_in(s, n) >= 1 ==> exists|i: int| 0 <= i < r.len() && (#[trigger] r[i]).0 == n,
{
    broadcast use vstd::seq_lib::to_multiset_contains;
    assert(s.no_duplicates()) by {
        assert forall|i: int, j: int| 0 <= i < s.len() && 0 <= j < s.len() && i != j implies s[i] != s[j] by {
            if i < j {
                assert(s[i].0 != s[j].0);
            } else {
                assert(s[j].0 != s[i].0);
            }
        }
    }
    s.lemma_multiset_has_no_duplicates();
    r.lemma_multiset_has_no_duplicates_conv();
    assert forall|i: int| 0 <= i < r.len() implies count_in(s, (#[trigger] r[i]).0) == r[i].1 && r[i].1 >= 1 by {
        assert(r.contains(r[i]));
        assert(s.to_multiset().count(r[i]) > 0);
        let p = choose|p: int| 0 <= p < s.len() && s[p] == r[i];
        lemma_tally_index_at(s, p);
    }
    assert forall|i: int, j: int| 0 <= i < j < r.len() implies #[trigger] r[i].0 != #[trigger] r[j].0 by {
        if r[i].0 == r[j].0 {
            assert(r.contains(r[i]));
            assert(s.to_multiset().count(r[i]) > 0);
            let p = choose|p: int| 0 <= p < s.len() && s[p] == r[i];
            assert(r.contains(r[j]));
            assert(s.to_multiset().count(r[j]) > 0);
            let q = choose|q: int| 0 <= q < s.len() && s[q] == r[j];
            if p < q {
                assert(s[p].0 != s[q].0);
            } else if q < p {
                assert(s[q].0 != s[p].0);
            }
            assert(r[i] == r[j]);
        }
    }
    assert forall|n: Seq<char>| #[trigger] count_in(s, n) >= 1 implies exists|i: int| 0 <= i < r.len() && (#[trigger] r[i]).0 == n by {
        lemma_tally_index_found(s, n, 0);
        let k = tally_index(s, n);
        assert(s.contains(s[k]));
        assert(r.to_multiset().count(s[k]) > 0);
        assert(r.contains(s[k]));
        let i = choose|i: int| 0 <= i < r.len() && r[i] == s[k];
        assert(r[i].0 == n);
    }
}

} // verus!
