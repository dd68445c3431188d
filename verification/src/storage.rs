//! Persistent, human-inspectable configuration and annotations: user
//! preferences, keybindings, and notes or bookmarks attached to addresses,
//! symbols or events. Reading and writing the file is the caller's part;
//! here is what the document holds and how a loaded one is completed.
use vstd::prelude::*;
use crate::text::{chars_of, chars_eq, lex_lt, lex_less, lemma_lex_order};

verus! {

/// Visual theme; the interface must degrade when Unicode glyphs are
/// unavailable.
#[derive(Debug, Clone, Copy, PartialEq, Eq, Structural)]
pub enum Theme {
    Dark,
    Light,
    Monochrome,
}

impl Default for Theme {
    fn default() -> (t: Theme)
        ensures
            t == Theme::Dark,
    {
        Theme::Dark
    }
}

#[derive(Debug, Clone, Copy, PartialEq, Eq, Structural)]
pub struct Preferences {
    pub theme: Theme,
    /// When false, the interface keeps to ASCII box-drawing and markers.
    pub unicode: bool,
    /// Show a decimal reading beside hex register values.
    pub show_decimal: bool,
    /// Capacity of the interactive trace ring.
    pub ring_capacity: usize,
}

impl Default for Preferences {
    fn default() -> (p: Preferences)
        ensures
            p == (Preferences { theme: Theme::Dark, unicode: true, show_decimal: false, ring_capacity: 50_000 }),
    {
        Preferences { theme: Theme::Dark, unicode: true, show_decimal: false, ring_capacity: 50_000 }
    }
}

/// Action to key-chord bindings (`"F5"`, `"s"`, `"ctrl+c"`), kept sorted by
/// action with each action once.
#[derive(Debug)]
pub struct Keybindings {
    bindings: Vec<(String, String)>,
}

impl Clone for Keybindings {
    fn clone(&self) -> (r: Self)
        ensures
            r.view() == self.view(),
    {
        proof {
            use_type_invariant(self);
        }
        Keybindings { bindings: crate::trace::record::dup_pairs(&self.bindings) }
    }
}

/// The bindings as (action, chord) texts.
pub open spec fn binding_views(v: Seq<(String, String)>) -> Seq<(Seq<char>, Seq<char>)> {
    v.map_values(|p: (String, String)| (p.0@, p.1@))
}

/// Actions strictly ascending (so each occurs once).
pub open spec fn actions_sorted(b: Seq<(Seq<char>, Seq<char>)>) -> bool {
    forall|i: int, j: int| 0 <= i < j < b.len() ==> lex_lt(#[trigger] b[i].0, #[trigger] b[j].0)
}

/// The chord bound to `action`.
pub open spec fn binding_of(b: Seq<(Seq<char>, Seq<char>)>, action: Seq<char>) -> Option<Seq<char>> {
    if exists|i: int| 0 <= i < b.len() && b[i].0 == action {
        Some(b[choose|i: int| 0 <= i < b.len() && b[i].0 == action].1)
    } else {
        None
    }
}

/// The built-in bindings, by action.
pub open spec fn default_bindings() -> Seq<(Seq<char>, Seq<char>)> {
    seq![
        ("command-palette"@, ":"@),
        ("continue"@, "c"@),
        ("focus-next"@, "Tab"@),
        ("help"@, "?"@),
        ("pause"@, "p"@),
        ("quit"@, "q"@),
        ("search"@, "/"@),
        ("step-instruction"@, "i"@),
        ("step-into"@, "s"@),
        ("step-out"@, "o"@),
        ("step-over"@, "n"@),
        ("toggle-breakpoint"@, "b"@),
    ]
}

/// The first position from `i` on whose action is not below `a`.
pub open spec fn first_not_below(b: Seq<(Seq<char>, Seq<char>)>, a: Seq<char>, i: int) -> int
    decreases b.len() - i,
{
    if i < 0 || i >= b.len() {
        b.len() as int
    } else if lex_lt(b[i].0, a) {
        first_not_below(b, a, i + 1)
    } else {
        i
    }
}

/// `b` with `action` bound to `chord`: in its place by action, replacing an
/// earlier binding of it.
pub open spec fn insert_binding(b: Seq<(Seq<char>, Seq<char>)>, action: Seq<char>, chord: Seq<char>) -> Seq<(Seq<char>, Seq<char>)> {
    let k = first_not_below(b, action, 0);
    if k < b.len() && b[k].0 == action {
        b.update(k, (action, chord))
    } else {
        b.insert(k, (action, chord))
    }
}

proof fn lemma_first_not_below(b: Seq<(Seq<char>, Seq<char>)>, a: Seq<char>, i: int)
    requires
        0 <= i <= b.len(),
        forall|j: int| 0 <= j < i ==> lex_lt(#[trigger] b[j].0, a),
    ensures
        i <= first_not_below(b, a, i) <= b.len(),
        forall|j: int| 0 <= j < first_not_below(b, a, i) ==> lex_lt(#[trigger] b[j].0, a),
        first_not_below(b, a, i) < b.len() ==> !lex_lt(b[first_not_below(b, a, i)].0, a),
    decreases b.len() - i,
{
    if i < b.len() && lex_lt(b[i].0, a) {
        lemma_first_not_below(b, a, i + 1);
    }
}

fn key_below(k: &String, a: &[char]) -> (r: bool)
    ensures
        r == lex_lt(k@, a@),
{
    let kc = chars_of(k.as_str());
    lex_less(kc.as_slice(), a)
}

fn key_equal(k: &String, a: &[char]) -> (r: bool)
    ensures
        r == (k@ == a@),
{
    let kc = chars_of(k.as_str());
    chars_eq(kc.as_slice(), a)
}

impl Keybindings {
    pub closed spec fn view(&self) -> Seq<(Seq<char>, Seq<char>)> {
        binding_views(self.bindings@)
    }

    #[verifier::type_invariant]
    spec fn sorted_by_action(self) -> bool {
        actions_sorted(binding_views(self.bindings@))
    }

    pub open spec fn wf(&self) -> bool {
        actions_sorted(self.view())
    }

    /// No bindings.
    pub fn new() -> (k: Keybindings)
        ensures
            k.wf(),
            k.view().len() == 0,
    {
        Keybindings { bindings: Vec::new() }
    }

    /// Binds `action` to `chord`, replacing an earlier binding of it.
    pub fn insert(&mut self, action: String, chord: String)
        ensures
            final(self).wf(),
            final(self).view() == insert_binding(old(self).view(), action@, chord@),
    {
        proof {
            use_type_invariant(&*self);
        }
        let mut v: Vec<(String, String)> = Vec::new();
        std::mem::swap(&mut v, &mut self.bindings);
        let ghost b = binding_views(v@);
        let ac = chars_of(action.as_str());
        let mut p: usize = 0;
        while p < v.len() && key_below(&v[p].0, ac.as_slice())
            invariant
                p <= v@.len(),
                b == binding_views(v@),
                ac@ == action@,
                first_not_below(b, action@, 0) == first_not_below(b, action@, p as int),
            decreases v@.len() - p,
        {
            p = p + 1;
        }
        proof {
            lemma_first_not_below(b, action@, 0);
        }
        let ghost k = p as int;
        assert(k == first_not_below(b, action@, 0));
        let ghost e = (action@, chord@);
        if p < v.len() && key_equal(&v[p].0, ac.as_slice()) {
            v.set(p, (action, chord));
            proof {
                assert(binding_views(v@) =~= b.update(k, e));
                assert forall|i: int, j: int| 0 <= i < j < binding_views(v@).len() implies
                    lex_lt(#[trigger] binding_views(v@)[i].0, #[trigger] binding_views(v@)[j].0) by {
                    assert(binding_views(v@)[i].0 == b[i].0);
                    assert(binding_views(v@)[j].0 == b[j].0);
                }
            }
        } else {
            v.insert(p, (action, chord));
            proof {
                let nb = binding_views(v@);
                assert(nb =~= b.insert(k, e));
                if k < b.len() {
                    lemma_lex_order(b[k].0, e.0, e.0);
                    assert(lex_lt(e.0, b[k].0));
                }
                assert forall|i: int, j: int| 0 <= i < j < nb.len() implies
                    lex_lt(#[trigger] nb[i].0, #[trigger] nb[j].0) by {
                    if j < k {
                        assert(nb[i] == b[i] && nb[j] == b[j]);
                    } else if j == k {
                        assert(nb[i] == b[i]);
                    } else if i < k {
                        assert(nb[i] == b[i] && nb[j] == b[j - 1]);
                        if j - 1 > k {
                            lemma_lex_order(b[i].0, e.0, b[k].0);
                            lemma_lex_order(b[i].0, b[k].0, b[j - 1].0);
                        } else {
                            lemma_lex_order(b[i].0, e.0, b[k].0);
                        }
                    } else if i == k {
                        assert(nb[j] == b[j - 1]);
                        if j - 1 > k {
                            lemma_lex_order(e.0, b[k].0, b[j - 1].0);
                        }
                    } else {
                        assert(nb[i] == b[i - 1] && nb[j] == b[j - 1]);
                    }
                }
            }
        }
        self.bindings = v;
    }

    pub fn is_empty(&self) -> (r: bool)
        ensures
            r == (self.view().len() == 0),
    {
        self.bindings.len() == 0
    }

    /// The bindings, sorted by action.
    pub fn into_bindings(self) -> (r: Vec<(String, String)>)
        ensures
            binding_views(r@) == self.view(),
            actions_sorted(binding_views(r@)),
    {
        proof {
            use_type_invariant(&self);
        }
        self.bindings
    }

    /// The chord bound to `action`; an action without a binding falls back
    /// to its built-in chord.
    pub fn get(&self, action: &str) -> (r: Option<&str>)
        ensures
            match chord_for(self.view(), action@) {
                Some(c) => r matches Some(s) && s@ == c,
                None => r is None,
            },
    {
        proof {
            use_type_invariant(self);
        }
        let a = chars_of(action);
        let ghost b = self.view();
        let mut i: usize = 0;
        while i < self.bindings.len()
            invariant
                i <= self.bindings@.len(),
                b == self.view(),
                actions_sorted(b),
                a@ == action@,
                forall|j: int| 0 <= j < i ==> (#[trigger] b[j]).0 != action@,
            decreases self.bindings@.len() - i,
        {
            assert(b[i as int] == (self.bindings@[i as int].0@, self.bindings@[i as int].1@));
            if key_equal(&self.bindings[i].0, a.as_slice()) {
                proof {
                    let c = choose|j: int| 0 <= j < b.len() && b[j].0 == action@;
                    if c != i {
                        if c < i {
                            assert(b[c].0 != action@);
                        } else {
                            lemma_lex_order(b[i as int].0, b[c].0, b[c].0);
                            assert(lex_lt(b[i as int].0, b[c].0));
                        }
                    }
                }
                return Some(self.bindings[i].1.as_str());
            }
            i = i + 1;
        }
        default_chord(a.as_slice())
    }
}

/// The chord for `action`: its binding in `b`, else the built-in one.
pub open spec fn chord_for(b: Seq<(Seq<char>, Seq<char>)>, action: Seq<char>) -> Option<Seq<char>> {
    match binding_of(b, action) {
        Some(c) => Some(c),
        None => binding_of(default_bindings(), action),
    }
}

/// The built-in chord for `action`.
fn default_chord(action: &[char]) -> (r: Option<&'static str>)
    ensures
        match binding_of(default_bindings(), action@) {
            Some(c) => r matches Some(s) && s@ == c,
            None => r is None,
        },
{
    let table: Vec<(&'static str, &'static str)> = vec![
        ("command-palette", ":"),
        ("continue", "c"),
        ("focus-next", "Tab"),
        ("help", "?"),
        ("pause", "p"),
        ("quit", "q"),
        ("search", "/"),
        ("step-instruction", "i"),
        ("step-into", "s"),
        ("step-out", "o"),
        ("step-over", "n"),
        ("toggle-breakpoint", "b"),
    ];
    let ghost b = default_bindings();
    proof {
        lemma_defaults_sorted();
        assert(table@.map_values(|p: (&'static str, &'static str)| (p.0@, p.1@)) =~= b);
    }
    let mut i: usize = 0;
    while i < table.len()
        invariant
            i <= table@.len(),
            table@.len() == b.len(),
            b == default_bindings(),
            actions_sorted(b),
            table@.map_values(|p: (&'static str, &'static str)| (p.0@, p.1@)) == b,
            forall|j: int| 0 <= j < i ==> (#[trigger] b[j]).0 != action@,
        decreases table@.len() - i,
    {
        assert(b[i as int] == (table@[i as int].0@, table@[i as int].1@));
        let k = chars_of(table[i].0);
        if chars_eq(k.as_slice(), action) {
            proof {
                let c = choose|j: int| 0 <= j < b.len() && b[j].0 == action@;
                if c != i {
                    if c > i {
                        lemma_lex_order(b[i as int].0, b[c].0, b[c].0);
                        assert(lex_lt(b[i as int].0, b[c].0));
                    }
                }
            }
            return Some(table[i].1);
        }
        i = i + 1;
    }
    None
}

proof fn lemma_sorted_from_adjacent(b: Seq<(Seq<char>, Seq<char>)>)
    requires
        forall|i: int| 0 <= i < b.len() - 1 ==> lex_lt(#[trigger] b[i].0, b[i + 1].0),
    ensures
        actions_sorted(b),
    decreases b.len(),
{
    if b.len() > 1 {
        let t = b.drop_last();
        assert forall|i: int| 0 <= i < t.len() - 1 implies lex_lt(#[trigger] t[i].0, t[i + 1].0) by {
            assert(t[i] == b[i] && t[i + 1] == b[i + 1]);
        }
        lemma_sorted_from_adjacent(t);
        assert forall|i: int, j: int| 0 <= i < j < b.len() implies lex_lt(#[trigger] b[i].0, #[trigger] b[j].0) by {
            if j < b.len() - 1 {
                assert(t[i] == b[i] && t[j] == b[j]);
            } else if i < j - 1 {
                assert(t[i] == b[i] && t[j - 1] == b[j - 1]);
                assert(lex_lt(t[i].0, t[j - 1].0));
                lemma_lex_order(b[i].0, b[j - 1].0, b[j].0);
            }
        }
    }
}

proof fn lemma_defaults_sorted()
    ensures
        actions_sorted(default_bindings()),
{
    reveal_strlit("command-palette");
    reveal_strlit("continue");
    reveal_strlit("focus-next");
    reveal_strlit("help");
    reveal_strlit("pause");
    reveal_strlit("quit");
    reveal_strlit("search");
    reveal_strlit("step-instruction");
    reveal_strlit("step-into");
    reveal_strlit("step-out");
    reveal_strlit("step-over");
    reveal_strlit("toggle-breakpoint");
    reveal_with_fuel(lex_lt, 10);
    let b = default_bindings();
    assert(lex_lt(b[0].0, b[1].0));
    assert(lex_lt(b[1].0, b[2].0));
    assert(lex_lt(b[2].0, b[3].0));
    assert(lex_lt(b[3].0, b[4].0));
    assert(lex_lt(b[4].0, b[5].0));
    assert(lex_lt(b[5].0, b[6].0));
    assert(lex_lt(b[6].0, b[7].0));
    assert(lex_lt(b[7].0, b[8].0));
    assert(lex_lt(b[8].0, b[9].0));
    assert(lex_lt(b[9].0, b[10].0));
    assert(lex_lt(b[10].0, b[11].0));
    lemma_sorted_from_adjacent(b);
}

impl Keybindings {
    /// The built-in bindings.
    pub fn defaults() -> (k: Keybindings)
        ensures
            k.wf(),
            k.view() == default_bindings(),
    {
        let mut v: Vec<(String, String)> = Vec::new();
        v.push(("command-palette".to_owned(), ":".to_owned()));
        v.push(("continue".to_owned(), "c".to_owned()));
        v.push(("focus-next".to_owned(), "Tab".to_owned()));
        v.push(("help".to_owned(), "?".to_owned()));
        v.push(("pause".to_owned(), "p".to_owned()));
        v.push(("quit".to_owned(), "q".to_owned()));
        v.push(("search".to_owned(), "/".to_owned()));
        v.push(("step-instruction".to_owned(), "i".to_owned()));
        v.push(("step-into".to_owned(), "s".to_owned()));
        v.push(("step-out".to_owned(), "o".to_owned()));
        v.push(("step-over".to_owned(), "n".to_owned()));
        v.push(("toggle-breakpoint".to_owned(), "b".to_owned()));
        assert(binding_views(v@) =~= default_bindings());
        proof {
            lemma_defaults_sorted();
        }
        Keybindings { bindings: v }
    }
}

/// What an annotation is attached to.
#[derive(Debug, Clone, PartialEq, Eq)]
pub enum AnnotationTarget {
    Address(u64),
    Symbol(String),
    Event(u64),
}

#[derive(Debug, Clone, PartialEq, Eq)]
pub struct Annotation {
    pub target: AnnotationTarget,
    pub note: String,
    pub bookmark: bool,
}

/// The whole persisted configuration document.
#[derive(Debug, Clone)]
pub struct BindConfig {
    pub preferences: Preferences,
    pub keybindings: Keybindings,
    pub annotations: Vec<Annotation>,
}

/// The bookmarked annotations, in order.
pub open spec fn bookmarked(a: Seq<Annotation>) -> Seq<Annotation>
    decreases a.len(),
{
    if a.len() == 0 {
        a
    } else if a.last().bookmark {
        bookmarked(a.drop_last()).push(a.last())
    } else {
        bookmarked(a.drop_last())
    }
}

impl BindConfig {
    /// Default preferences, the built-in keybindings, no annotations.
    pub fn with_default_keys() -> (c: BindConfig)
        ensures
            c.preferences == (Preferences { theme: Theme::Dark, unicode: true, show_decimal: false, ring_capacity: 50_000 }),
            c.keybindings.wf(),
            c.keybindings.view() == default_bindings(),
            c.annotations@.len() == 0,
    {
        BindConfig { preferences: Preferences::default(), keybindings: Keybindings::defaults(), annotations: Vec::new() }
    }

    pub fn add_annotation(&mut self, a: Annotation)
        ensures
            final(self).annotations@ == old(self).annotations@.push(a),
            final(self).preferences == old(self).preferences,
            final(self).keybindings.view() == old(self).keybindings.view(),
    {
        self.annotations.push(a);
    }

    /// The bookmarked annotations.
    pub fn bookmarks(&self) -> (r: Vec<&Annotation>)
        ensures
            r@.map_values(|a: &Annotation| *a) == bookmarked(self.annotations@),
    {
        let ghost all = self.annotations@;
        let mut out: Vec<&Annotation> = Vec::new();
        let mut i: usize = 0;
        while i < self.annotations.len()
            invariant
                i <= all.len(),
                all == self.annotations@,
                out@.map_values(|a: &Annotation| *a) == bookmarked(all.take(i as int)),
            decreases all.len() - i,
        {
            proof {
                assert(all.take(i + 1).drop_last() =~= all.take(i as int));
                assert(all.take(i + 1).last() == all[i as int]);
            }
            let ghost before = out@.map_values(|a: &Annotation| *a);
            if self.annotations[i].bookmark {
                out.push(&self.annotations[i]);
                assert(out@.map_values(|a: &Annotation| *a) =~= before.push(all[i as int]));
            }
            i = i + 1;
        }
        assert(all.take(all.len() as int) =~= all);
        out
    }

    /// A loaded document made whole: with no keybindings, the built-in ones.
    pub fn with_loaded_defaults(self) -> (c: BindConfig)
        ensures
            c.preferences == self.preferences,
            c.annotations == self.annotations,
            self.keybindings.view().len() == 0 ==> c.keybindings.view() == default_bindings() && c.keybindings.wf(),
            self.keybindings.view().len() > 0 ==> c.keybindings.view() == self.keybindings.view(),
    {
        if self.keybindings.is_empty() {
            BindConfig { keybindings: Keybindings::defaults(), ..self }
        } else {
            self
        }
    }
}

/// The configuration file inside the configuration directory `dir`, as a
/// path join writes it: no separator after an empty directory or one that
/// already ends in `/`.
pub open spec fn config_file_in(dir: Seq<char>) -> Seq<char> {
    if dir.len() == 0 || dir.last() == '/' {
        dir + "config.json"@
    } else {
        dir + seq!['/'] + "config.json"@
    }
}

pub fn config_path(dir: &str) -> (r: String)
    ensures
        r@ == config_file_in(dir@),
{
    let mut v = crate::text::chars_of(dir);
    if v.len() > 0 && v[v.len() - 1] != '/' {
        v.push('/');
    }
    crate::text::push_str(&mut v, "config.json");
    crate::text::string_of(v.as_slice())
}

} // verus!
