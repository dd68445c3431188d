//! Address → symbol resolution with memoized demangling.
//!
//! The index keeps its function symbols ordered by start address (symbols
//! with equal starts stay in insertion order) and answers nearest-symbol
//! queries: the containing symbol plus the offset of the queried address. A
//! miss is `None`, never an error.
use vstd::prelude::*;
use crate::bind_core::address::Address;
use crate::bind_core::model::{Symbol, dup_opt_string};
use crate::num::{hex_digits, fmt_hex};
use crate::symbols::demangle::{demangle, demangled_name, opt_chars};
use crate::text::{chars_of, chars_eq, string_of, push_str, push_chars};

verus! {

/// One indexed function symbol.
#[derive(Debug)]
pub struct SymbolEntry {
    pub start: Address,
    /// Size in bytes; 0 means the extent is unknown.
    pub size: u64,
    pub name: String,
    pub module: Option<String>,
}

/// Entries ordered by start address.
pub open spec fn sorted_by_start(s: Seq<SymbolEntry>) -> bool {
    forall|i: int, j: int| 0 <= i <= j < s.len() ==> s[i].start.0 <= s[j].start.0
}

/// The index of the last entry whose start is at or below `a`, or -1.
pub open spec fn last_at_or_below(s: Seq<SymbolEntry>, a: u64) -> int
    decreases s.len(),
{
    if s.len() == 0 {
        -1
    } else if s.last().start.0 <= a {
        s.len() - 1
    } else {
        last_at_or_below(s.drop_last(), a)
    }
}

/// The entry that covers `a`: the last one starting at or below it, unless
/// its known size ends before `a`.
pub open spec fn covering_entry(s: Seq<SymbolEntry>, a: u64) -> Option<SymbolEntry> {
    let k = last_at_or_below(s, a);
    if k < 0 {
        None
    } else if s[k].size > 0 && a >= s[k].start.0 + s[k].size {
        None
    } else {
        Some(s[k])
    }
}

/// The demangled name of `name`, when it differs from `name`.
pub open spec fn demangled_if_different(name: Seq<char>) -> Option<Seq<char>> {
    if demangled_name(name) != name {
        Some(demangled_name(name))
    } else {
        None
    }
}

/// `sym` is what resolving `a` reports for the entry `e`.
pub open spec fn symbol_for(sym: Symbol, e: SymbolEntry, a: u64) -> bool {
    &&& sym.name == e.name
    &&& opt_chars(sym.demangled) == demangled_if_different(e.name@)
    &&& sym.module == e.module
    &&& sym.start == Some(e.start)
    &&& sym.offset == a - e.start.0
}

/// `main` at the start of a symbol, `main+0x4` inside it.
pub open spec fn function_label(e: SymbolEntry, a: u64) -> Seq<char> {
    let off = (a - e.start.0) as nat;
    if off == 0 {
        demangled_name(e.name@)
    } else {
        demangled_name(e.name@) + "+0x"@ + hex_digits(off)
    }
}

/// The address first recorded for `n`, scanning from position `i`.
pub open spec fn first_named_from(s: Seq<(String, Address)>, n: Seq<char>, i: int) -> Option<Address>
    decreases s.len() - i,
{
    if i < 0 || i >= s.len() {
        None
    } else if s[i].0@ == n {
        Some(s[i].1)
    } else {
        first_named_from(s, n, i + 1)
    }
}

/// The address first recorded for `n`.
pub open spec fn first_named(s: Seq<(String, Address)>, n: Seq<char>) -> Option<Address> {
    first_named_from(s, n, 0)
}

/// An index of function symbols supporting nearest-address lookup.
#[derive(Debug)]
pub struct SymbolIndex {
    entries: Vec<SymbolEntry>,
    /// Every inserted name with its address, in insertion order.
    named: Vec<(String, Address)>,
    /// Names already demangled, with their display names.
    cache: Vec<(String, String)>,
}

proof fn lemma_last_at_or_below(s: Seq<SymbolEntry>, a: u64, k: int)
    requires
        0 <= k <= s.len(),
        forall|i: int| 0 <= i < k ==> #[trigger] s[i].start.0 <= a,
        forall|i: int| k <= i < s.len() ==> #[trigger] s[i].start.0 > a,
    ensures
        last_at_or_below(s, a) == k - 1,
    decreases s.len(),
{
    if s.len() > 0 && k < s.len() {
        let t = s.drop_last();
        assert forall|i: int| 0 <= i < k implies #[trigger] t[i].start.0 <= a by {
            assert(t[i] == s[i]);
        }
        assert forall|i: int| k <= i < t.len() implies #[trigger] t[i].start.0 > a by {
            assert(t[i] == s[i]);
        }
        lemma_last_at_or_below(t, a, k);
    }
}

proof fn lemma_first_named_skip(s: Seq<(String, Address)>, n: Seq<char>, i: int)
    requires
        0 <= i <= s.len(),
        forall|j: int| 0 <= j < i ==> (#[trigger] s[j]).0@ != n,
    ensures
        first_named(s, n) == first_named_from(s, n, i),
    decreases i,
{
    if i > 0 {
        lemma_first_named_skip(s, n, i - 1);
    }
}

proof fn lemma_first_named_push(s: Seq<(String, Address)>, x: (String, Address), n: Seq<char>, i: int)
    requires
        0 <= i <= s.len(),
    ensures
        first_named_from(s.push(x), n, i) == (match first_named_from(s, n, i) {
            Some(a) => Some(a),
            None => if x.0@ == n { Some(x.1) } else { None },
        }),
    decreases s.len() - i,
{
    if i < s.len() {
        assert(s.push(x)[i] == s[i]);
        lemma_first_named_push(s, x, n, i + 1);
    } else {
        assert(s.push(x)[i] == x);
        assert(first_named_from(s.push(x), n, i + 1) == None::<Address>);
        assert(first_named_from(s, n, i) == None::<Address>);
    }
}

/// The position that keeps `s` ordered when an entry starting at `a` is
/// added after every entry that starts at or below `a`.
fn upper_bound(s: &Vec<SymbolEntry>, a: u64) -> (k: usize)
    requires
        sorted_by_start(s@),
    ensures
        k as int == last_at_or_below(s@, a) + 1,
        forall|i: int| 0 <= i < k ==> #[trigger] s@[i].start.0 <= a,
        forall|i: int| k <= i < s@.len() ==> #[trigger] s@[i].start.0 > a,
{
    let mut lo: usize = 0;
    let mut hi: usize = s.len();
    while lo < hi
        invariant
            lo <= hi <= s@.len(),
            sorted_by_start(s@),
            forall|i: int| 0 <= i < lo ==> #[trigger] s@[i].start.0 <= a,
            forall|i: int| hi <= i < s@.len() ==> #[trigger] s@[i].start.0 > a,
        decreases hi - lo,
    {
        let mid = lo + (hi - lo) / 2;
        if s[mid].start.0 <= a {
            assert forall|i: int| 0 <= i < mid + 1 implies #[trigger] s@[i].start.0 <= a by {
                assert(s@[i].start.0 <= s@[mid as int].start.0);
            }
            lo = mid + 1;
        } else {
            assert forall|i: int| mid <= i < s@.len() implies #[trigger] s@[i].start.0 > a by {
                assert(s@[mid as int].start.0 <= s@[i].start.0);
            }
            hi = mid;
        }
    }
    proof {
        lemma_last_at_or_below(s@, a, lo as int);
    }
    lo
}

impl SymbolIndex {
    /// The entries, ordered by start address.
    pub closed spec fn entries(&self) -> Seq<SymbolEntry> {
        self.entries@
    }

    /// Every inserted name with its address, in insertion order.
    pub closed spec fn named(&self) -> Seq<(String, Address)> {
        self.named@
    }

    /// The index is ordered and its demangle cache is faithful.
    pub closed spec fn wf(&self) -> bool {
        &&& sorted_by_start(self.entries@)
        &&& forall|i: int| 0 <= i < self.cache@.len()
            ==> (#[trigger] self.cache@[i]).1@ == demangled_name(self.cache@[i].0@)
    }

    pub fn new() -> (r: SymbolIndex)
        ensures
            r.wf(),
            r.entries() == Seq::<SymbolEntry>::empty(),
            r.named() == Seq::<(String, Address)>::empty(),
    {
        SymbolIndex { entries: Vec::new(), named: Vec::new(), cache: Vec::new() }
    }

    pub fn len(&self) -> (r: usize)
        ensures
            r == self.entries().len(),
    {
        self.entries.len()
    }

    pub fn is_empty(&self) -> (r: bool)
        ensures
            r == (self.entries().len() == 0),
    {
        self.entries.len() == 0
    }

    /// Adds a symbol; `size` may be 0 when unknown. It is placed after every
    /// symbol that starts at or below `start`.
    pub fn insert(&mut self, name: &str, start: Address, size: u64, module: Option<String>)
        requires
            old(self).wf(),
        ensures
            final(self).wf(),
            final(self).entries().len() == old(self).entries().len() + 1,
            ({
                let k = last_at_or_below(old(self).entries(), start.0) + 1;
                let e = final(self).entries()[k];
                &&& final(self).entries() == old(self).entries().insert(k, e)
                &&& e.start == start && e.size == size && e.name@ == name@ && e.module == module
            }),
            final(self).named().len() == old(self).named().len() + 1,
            final(self).named().drop_last() == old(self).named(),
            final(self).named().last().0@ == name@,
            final(self).named().last().1 == start,
    {
        let k = upper_bound(&self.entries, start.0);
        let cs = chars_of(name);
        let n1 = string_of(cs.as_slice());
        let n2 = string_of(cs.as_slice());
        let e = SymbolEntry { start, size, name: n1, module };
        let ghost old_entries = self.entries@;
        self.entries.insert(k, e);
        proof {
            let t = self.entries@;
            assert(t == old_entries.insert(k as int, e));
            assert forall|i: int, j: int| 0 <= i <= j < t.len() implies t[i].start.0 <= t[j].start.0 by {
                if i < k {
                    assert(t[i] == old_entries[i]);
                } else if i > k {
                    assert(t[i] == old_entries[i - 1]);
                }
                if j < k {
                    assert(t[j] == old_entries[j]);
                } else if j > k {
                    assert(t[j] == old_entries[j - 1]);
                }
            }
            assert(t[k as int] == e);
        }
        let ghost old_named = self.named@;
        self.named.push((n2, start));
        proof {
            assert(self.named@.drop_last() =~= old_named);
        }
    }

    /// The display name of `mangled`, demangled once and then remembered.
    pub fn display_name(&mut self, mangled: &str) -> (r: String)
        requires
            old(self).wf(),
        ensures
            final(self).wf(),
            r@ == demangled_name(mangled@),
            final(self).entries() == old(self).entries(),
            final(self).named() == old(self).named(),
    {
        let key = string_of(chars_of(mangled).as_slice());
        let mut i: usize = 0;
        while i < self.cache.len()
            invariant
                self.wf(),
                i <= self.cache@.len(),
                key@ == mangled@,
            decreases self.cache@.len() - i,
        {
            if self.cache[i].0 == key {
                let hit = self.cache[i].1.clone();
                assert(self.cache@[i as int].1@ == demangled_name(self.cache@[i as int].0@));
                return hit;
            }
            i = i + 1;
        }
        let d = demangle(mangled);
        let d2 = d.clone();
        let ghost before = self.cache@;
        self.cache.push((key, d2));
        proof {
            assert forall|j: int| 0 <= j < self.cache@.len()
                implies (#[trigger] self.cache@[j]).1@ == demangled_name(self.cache@[j].0@) by {
                if j < before.len() {
                    assert(self.cache@[j] == before[j]);
                }
            }
        }
        d
    }

    /// Resolves an address to the containing (or nearest preceding) symbol.
    pub fn resolve(&mut self, addr: Address) -> (r: Option<Symbol>)
        requires
            old(self).wf(),
        ensures
            final(self).wf(),
            final(self).entries() == old(self).entries(),
            final(self).named() == old(self).named(),
            match covering_entry(old(self).entries(), addr.0) {
                None => r is None,
                Some(e) => r is Some && symbol_for(r.unwrap(), e, addr.0),
            },
    {
        let k = upper_bound(&self.entries, addr.0);
        if k == 0 {
            return None;
        }
        let idx = k - 1;
        let start = self.entries[idx].start;
        let size = self.entries[idx].size;
        if size > 0 && addr.0 as u128 >= start.0 as u128 + size as u128 {
            return None;
        }
        let name = self.entries[idx].name.clone();
        let module = dup_opt_string(&self.entries[idx].module);
        let d = self.display_name(name.as_str());
        let nc = chars_of(name.as_str());
        let dc = chars_of(d.as_str());
        let demangled = if chars_eq(dc.as_slice(), nc.as_slice()) {
            None
        } else {
            Some(d)
        };
        Some(Symbol { name, demangled, module, start: Some(start), offset: addr.0 - start.0 })
    }

    /// The best display name for an address: the demangled symbol, with
    /// `+0x` and the hex offset when the address is inside it.
    pub fn function_at(&mut self, addr: Address) -> (r: Option<String>)
        requires
            old(self).wf(),
        ensures
            final(self).wf(),
            final(self).entries() == old(self).entries(),
            final(self).named() == old(self).named(),
            match covering_entry(old(self).entries(), addr.0) {
                None => r is None,
                Some(e) => r is Some && r.unwrap()@ == function_label(e, addr.0),
            },
    {
        match self.resolve(addr) {
            None => None,
            Some(s) => {
                let shown = s.display();
                let mut v = chars_of(shown);
                if s.offset != 0 {
                    push_str(&mut v, "+0x");
                    let h = fmt_hex(s.offset);
                    push_chars(&mut v, h.as_slice());
                }
                Some(string_of(v.as_slice()))
            },
        }
    }

    /// The address of the first symbol inserted under `name`.
    pub fn address_of(&self, name: &str) -> (r: Option<Address>)
        ensures
            r == first_named(self.named(), name@),
    {
        let target = chars_of(name);
        let mut i: usize = 0;
        while i < self.named.len()
            invariant
                i <= self.named@.len(),
                target@ == name@,
                forall|j: int| 0 <= j < i ==> (#[trigger] self.named@[j]).0@ != name@,
            decreases self.named@.len() - i,
        {
            let c = chars_of(self.named[i].0.as_str());
            if chars_eq(c.as_slice(), target.as_slice()) {
                proof {
                    lemma_first_named_skip(self.named@, name@, i as int);
                }
                return Some(self.named[i].1);
            }
            i = i + 1;
        }
        proof {
            lemma_first_named_skip(self.named@, name@, i as int);
        }
        None
    }
}

/// Inserting a name that was already recorded keeps its first address;
/// a new name resolves to the inserted address.
pub proof fn lemma_first_insert_wins(before: SymbolIndex, after: SymbolIndex, name: Seq<char>, start: Address)
    requires
        after.named().drop_last() == before.named(),
        after.named().len() == before.named().len() + 1,
        after.named().last().0@ == name,
        after.named().last().1 == start,
    ensures
        first_named(after.named(), name) == (match first_named(before.named(), name) {
            Some(a) => Some(a),
            None => Some(start),
        }),
{
    let s = before.named();
    let x = after.named().last();
    assert(after.named() == s.push(x)) by {
        assert(after.named() =~= after.named().drop_last().push(after.named().last()));
    }
    lemma_first_named_push(s, x, name, 0);
}

/// The start of the first entry of `h` named `n`.
pub open spec fn first_inserted(h: Seq<SymbolEntry>, n: Seq<char>) -> Option<Address>
    decreases h.len(),
{
    if h.len() == 0 {
        None
    } else {
        match first_inserted(h.drop_last(), n) {
            Some(a) => Some(a),
            None => if h.last().name@ == n {
                Some(h.last().start)
            } else {
                None
            },
        }
    }
}

/// `idx` holds what `new` and the inserts of `h`, in order, leave: the
/// entries of `h` sorted by start, and the names of `h` in insertion order.
pub open spec fn built_from(idx: SymbolIndex, h: Seq<SymbolEntry>) -> bool {
    &&& idx.entries().to_multiset() == h.to_multiset()
    &&& sorted_by_start(idx.entries())
    &&& idx.named().len() == h.len()
    &&& forall|i: int| 0 <= i < h.len() ==> (#[trigger] idx.named()[i]).0@ == h[i].name@ && idx.named()[i].1 == h[i].start
}

/// A new index is built from no inserts.
pub proof fn lemma_built_new(idx: SymbolIndex)
    requires
        idx.wf(),
        idx.entries() == Seq::<SymbolEntry>::empty(),
        idx.named() == Seq::<(String, Address)>::empty(),
    ensures
        built_from(idx, Seq::<SymbolEntry>::empty()),
{
    broadcast use vstd::seq_lib::to_multiset_len;
    assert(idx.entries().to_multiset() =~= Seq::<SymbolEntry>::empty().to_multiset());
}

/// An insert of `e` extends the history by `e`; lookups, which leave the
/// entries and names as they were, keep it.
pub proof fn lemma_built_insert(before: SymbolIndex, after: SymbolIndex, h: Seq<SymbolEntry>, k: int, e: SymbolEntry)
    requires
        built_from(before, h),
        after.wf(),
        0 <= k <= before.entries().len(),
        after.entries() == before.entries().insert(k, e),
        after.named().drop_last() == before.named(),
        after.named().len() == before.named().len() + 1,
        after.named().last().0@ == e.name@,
        after.named().last().1 == e.start,
    ensures
        built_from(after, h.push(e)),
{
    broadcast use vstd::seq_lib::to_multiset_insert, vstd::seq_lib::to_multiset_build;
    assert(after.entries().to_multiset() == before.entries().to_multiset().insert(e));
    assert(h.push(e).to_multiset() == h.to_multiset().insert(e));
    let hn = h.push(e);
    assert forall|i: int| 0 <= i < hn.len() implies (#[trigger] after.named()[i]).0@ == hn[i].name@ && after.named()[i].1 == hn[i].start by {
        if i < h.len() {
            assert(after.named()[i] == after.named().drop_last()[i]);
        }
    }
}

proof fn lemma_last_at_or_below_bounds(s: Seq<SymbolEntry>, a: u64)
    ensures
        -1 <= last_at_or_below(s, a) < s.len(),
        last_at_or_below(s, a) >= 0 ==> s[last_at_or_below(s, a)].start.0 <= a,
        forall|i: int| last_at_or_below(s, a) < i < s.len() ==> #[trigger] s[i].start.0 > a,
    decreases s.len(),
{
    if s.len() > 0 && s.last().start.0 > a {
        let t = s.drop_last();
        lemma_last_at_or_below_bounds(t, a);
        assert forall|i: int| last_at_or_below(s, a) < i < s.len() implies #[trigger] s[i].start.0 > a by {
            if i < t.len() {
                assert(s[i] == t[i]);
            }
        }
    }
}

/// After a history of inserts `h`, a name resolves to the start of its
/// first insert; a later insert of the same name does not change it.
pub proof fn lemma_address_of_history(idx: SymbolIndex, h: Seq<SymbolEntry>, n: Seq<char>)
    requires
        built_from(idx, h),
    ensures
        first_named(idx.named(), n) == first_inserted(h, n),
{
    lemma_first_named_prefix(idx.named(), h, n);
}

proof fn lemma_first_named_prefix(s: Seq<(String, Address)>, h: Seq<SymbolEntry>, n: Seq<char>)
    requires
        s.len() == h.len(),
        forall|i: int| 0 <= i < h.len() ==> (#[trigger] s[i]).0@ == h[i].name@ && s[i].1 == h[i].start,
    ensures
        first_named(s, n) == first_inserted(h, n),
    decreases h.len(),
{
    if h.len() > 0 {
        let t = s.drop_last();
        assert forall|i: int| 0 <= i < h.drop_last().len() implies (#[trigger] t[i]).0@ == h.drop_last()[i].name@ && t[i].1 == h.drop_last()[i].start by {
            assert(t[i] == s[i]);
        }
        lemma_first_named_prefix(t, h.drop_last(), n);
        assert(s == t.push(s.last())) by {
            assert(s =~= t.push(s.last()));
        }
        lemma_first_named_push(t, s.last(), n, 0);
    }
}

/// After a history of inserts `h`, resolving `a` looks at an inserted entry
/// with the greatest start at or below `a`: none when every start lies
/// above `a`; otherwise that entry, unless it is sized and ends at or below
/// `a`.
pub proof fn lemma_resolve_history(idx: SymbolIndex, h: Seq<SymbolEntry>, a: u64)
    requires
        built_from(idx, h),
    ensures
        (forall|i: int| 0 <= i < h.len() ==> #[trigger] h[i].start.0 > a) ==> covering_entry(idx.entries(), a) is None,
        (exists|i: int| 0 <= i < h.len() && #[trigger] h[i].start.0 <= a) ==> exists|j: int| {
            &&& 0 <= j < h.len()
            &&& #[trigger] h[j].start.0 <= a
            &&& forall|i: int| 0 <= i < h.len() && #[trigger] h[i].start.0 <= a ==> h[i].start.0 <= h[j].start.0
            &&& covering_entry(idx.entries(), a) == if h[j].size > 0 && a >= h[j].start.0 + h[j].size {
                None::<SymbolEntry>
            } else {
                Some(h[j])
            }
        },
{
    broadcast use vstd::seq_lib::to_multiset_contains;
    let s = idx.entries();
    let k = last_at_or_below(s, a);
    lemma_last_at_or_below_bounds(s, a);
    if k >= 0 {
        assert(s.contains(s[k]));
        assert(h.to_multiset().count(s[k]) > 0);
        assert(h.contains(s[k]));
        let j = choose|j: int| 0 <= j < h.len() && h[j] == s[k];
        assert forall|i: int| 0 <= i < h.len() && #[trigger] h[i].start.0 <= a implies h[i].start.0 <= h[j].start.0 by {
            assert(h.contains(h[i]));
            assert(s.to_multiset().count(h[i]) > 0);
            assert(s.contains(h[i]));
            let p = choose|p: int| 0 <= p < s.len() && s[p] == h[i];
            if p > k {
                assert(s[p].start.0 > a);
            }
        }
        assert(h[j].start.0 <= a);
    } else {
        assert forall|i: int| 0 <= i < h.len() implies #[trigger] h[i].start.0 > a by {
            assert(h.contains(h[i]));
            assert(s.to_multiset().count(h[i]) > 0);
            assert(s.contains(h[i]));
            let p = choose|p: int| 0 <= p < s.len() && s[p] == h[i];
            assert(s[p].start.0 > a);
        }
    }
}

} // verus!
