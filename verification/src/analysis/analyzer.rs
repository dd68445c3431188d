//! The context handed to analyses.
use vstd::prelude::*;
use crate::bind_core::address::Address;
use crate::symbols::index::{SymbolIndex, covering_entry, function_label};
use crate::bind_core::event::SequencedEvent;
use crate::analysis::finding::Finding;
use crate::analysis::analyzers::{
    FunctionTransitions, InstructionCounts, StopSummary, all_below_max, counts_reported, same_symbols, step_counted,
    stop_taken, stops_reported, transition_taken, transitions_reported,
};

verus! {

/// Read/resolve context handed to analyzers. Symbol resolution is optional so
/// analyses still run (with reduced insight) on stripped targets.
pub struct AnalysisContext<'a> {
    symbols: Option<&'a mut SymbolIndex>,
}

impl<'a> AnalysisContext<'a> {
    /// The symbols the context resolves against.
    pub open spec fn symbols(&self) -> Option<SymbolIndex> {
        match self.handle() {
            Some(s) => Some(*s),
            None => None,
        }
    }

    pub open spec fn wf(&self) -> bool {
        match self.symbols() {
            Some(s) => s.wf(),
            None => true,
        }
    }

    /// The reference the context resolves through.
    pub closed spec fn handle(&self) -> Option<&'a mut SymbolIndex> {
        self.symbols
    }

    pub fn new(symbols: Option<&'a mut SymbolIndex>) -> (r: Self)
        ensures
            r.handle() == symbols,
            r.symbols() == (match symbols {
                Some(s) => Some(*s),
                None => None::<SymbolIndex>,
            }),
    {
        AnalysisContext { symbols }
    }

    pub fn empty() -> (r: Self)
        ensures
            r.symbols() is None,
    {
        AnalysisContext { symbols: None }
    }

    /// The function name for an address, if symbols are available.
    pub fn function_at(&mut self, addr: Address) -> (r: Option<String>)
        requires
            old(self).wf(),
        ensures
            final(self).wf(),
            match (old(self).handle(), final(self).handle()) {
                (Some(g), Some(h)) => *final(h) == *final(g),
                (None, None) => true,
                _ => false,
            },
            match old(self).symbols() {
                None => r is None && final(self).symbols() is None,
                Some(s) => final(self).symbols() is Some
                    && final(self).symbols().unwrap().entries() == s.entries()
                    && final(self).symbols().unwrap().named() == s.named()
                    && match covering_entry(s.entries(), addr.0) {
                        None => r is None,
                        Some(e) => r is Some && r.unwrap()@ == function_label(e, addr.0),
                    },
            },
    {
        match &mut self.symbols {
            Some(s) => s.function_at(addr),
            None => None,
        }
    }
}

/// Once a context is done with, the index it borrowed holds what the
/// context last saw in it.
pub proof fn lemma_context_done(ctx: AnalysisContext)
    requires
        has_resolved(ctx),
    ensures
        match ctx.handle() {
            Some(h) => *h == *final(h),
            None => true,
        },
{
}

/// An analysis over the event stream, fed one event at a time.
pub trait Analyzer {
    /// The analysis's own consistency.
    spec fn inv(&self) -> bool;

    /// Whether its counters can take one more event.
    spec fn room(&self) -> bool;

    /// Whether `fs` is what the analysis reports in its present state.
    spec fn reports(&self, fs: Seq<Finding>) -> bool;

    spec fn name_view(&self) -> Seq<char>;

    fn name(&self) -> (r: &'static str)
        ensures
            r@ == self.name_view(),
    ;

    /// Whether it is consistent and its counters can take one more event.
    fn has_room(&self) -> (r: bool)
        ensures
            r == (self.inv() && self.room()),
    ;

    fn on_event(&mut self, event: &SequencedEvent, ctx: &mut AnalysisContext)
        requires
            old(self).inv(),
            old(self).room(),
            old(ctx).wf(),
        ensures
            final(self).inv(),
            final(ctx).wf(),
            same_symbols(old(ctx).symbols(), final(ctx).symbols()),
            match (old(ctx).handle(), final(ctx).handle()) {
                (Some(g), Some(h)) => *final(h) == *final(g),
                (None, None) => true,
                _ => false,
            },
    ;

    fn findings(&self) -> (r: Vec<Finding>)
        ensures
            self.inv() ==> self.reports(r@),
    ;
}

/// An analysis added to a set.
pub struct Registered {
    pub analyzer: Box<dyn Analyzer>,
}

impl Registered {
    /// Holds `analyzer`. No contract relates the held analysis to the one
    /// given: the verifier does not follow a boxed trait object into a
    /// struct's field.
    pub fn new(analyzer: Box<dyn Analyzer>) -> (r: Registered) {
        Registered { analyzer }
    }
}

/// `fs` is the findings of the analyses `s`, each one's after the one's
/// before it, in order; an inconsistent analysis's share is unsaid.
pub open spec fn all_reported(s: Seq<Registered>, fs: Seq<Finding>) -> bool
    decreases s.len(),
{
    if s.len() == 0 {
        fs.len() == 0
    } else {
        exists|k: int|
            #![trigger fs.take(k)]
            0 <= k <= fs.len() && all_reported(s.drop_last(), fs.take(k)) && (s.last().analyzer.inv()
                ==> s.last().analyzer.reports(fs.skip(k)))
    }
}

/// The stop tally's share of the findings: nothing when the set has none.
pub open spec fn stops_part(s: Option<StopSummary>, fs: Seq<Finding>) -> bool {
    match s {
        Some(x) => stops_reported(x, fs),
        None => fs.len() == 0,
    }
}

pub open spec fn counts_part(c: Option<InstructionCounts>, fs: Seq<Finding>) -> bool {
    match c {
        Some(x) => counts_reported(x, fs),
        None => fs.len() == 0,
    }
}

pub open spec fn transitions_part(t: Option<FunctionTransitions>, fs: Seq<Finding>) -> bool {
    match t {
        Some(x) => transitions_reported(x.state(), fs),
        None => fs.len() == 0,
    }
}

/// Runs a set of analyses over one event stream: the built-in ones the set
/// was made with, then those added to it, in the order they were added.
pub struct AnalyzerSet {
    stops: Option<StopSummary>,
    counts: Option<InstructionCounts>,
    transitions: Option<FunctionTransitions>,
    added: Vec<Registered>,
}

/// `fs` is the set's findings: the stop tally's, the instruction counts',
/// the transitions', then each added analysis's, in order.
pub open spec fn set_reported(s: AnalyzerSet, fs: Seq<Finding>) -> bool {
    exists|i: int, j: int, k: int|
        #![trigger fs.subrange(0, i), fs.subrange(i, j), fs.subrange(j, k)]
        0 <= i <= j <= k <= fs.len() && stops_part(s.stops(), fs.subrange(0, i)) && counts_part(s.counts(), fs.subrange(i, j))
            && transitions_part(s.transitions(), fs.subrange(j, k)) && all_reported(s.added(), fs.skip(k))
}

/// What the set makes of one event, with `syms` the symbols it resolves
/// against: each built-in analysis takes the event while its counters have
/// room and is left as it was once they are full.
pub open spec fn set_took(a: AnalyzerSet, event: SequencedEvent, syms: Option<SymbolIndex>, b: AnalyzerSet) -> bool {
    &&& match (a.stops(), b.stops()) {
        (None, None) => true,
        (Some(x), Some(y)) => if x.stop_total() < u64::MAX && all_below_max(x.signal_counts()) {
            stop_taken(x, event.event, y)
        } else {
            y == x
        },
        _ => false,
    }
    &&& match (a.counts(), b.counts()) {
        (None, None) => true,
        (Some(x), Some(y)) => if x.total_count() < u64::MAX {
            step_counted(x, event.event, syms, y)
        } else {
            y == x
        },
        _ => false,
    }
    &&& match (a.transitions(), b.transitions()) {
        (None, None) => true,
        (Some(x), Some(y)) => transition_taken(x.state(), event, syms, y.state()),
        _ => false,
    }
    &&& b.added().len() == a.added().len()
    &&& forall|i: int| 0 <= i < a.added().len() && a.added()[i].analyzer.inv() ==> (#[trigger] b.added()[i]).analyzer.inv()
}

impl AnalyzerSet {
    pub closed spec fn stops(&self) -> Option<StopSummary> {
        self.stops
    }

    pub closed spec fn counts(&self) -> Option<InstructionCounts> {
        self.counts
    }

    pub closed spec fn transitions(&self) -> Option<FunctionTransitions> {
        self.transitions
    }

    /// The analyses added to the set, in the order they were added.
    pub closed spec fn added(&self) -> Seq<Registered> {
        self.added@
    }

    /// The built-in analyses are consistent.
    pub open spec fn wf(&self) -> bool {
        &&& self.stops() matches Some(x) ==> x.wf()
        &&& self.counts() matches Some(x) ==> x.wf()
        &&& self.transitions() matches Some(x) ==> x.wf()
    }

    /// A set with no analyses.
    pub fn new() -> (r: AnalyzerSet)
        ensures
            r.wf(),
            r.stops() is None && r.counts() is None && r.transitions() is None,
            r.added().len() == 0,
    {
        AnalyzerSet { stops: None, counts: None, transitions: None, added: Vec::new() }
    }

}

/// The analyses a live session runs: the stop tally, the instruction counts
/// and the function transitions, all fresh, in that order.
pub fn default_analyzers() -> (r: AnalyzerSet)
    ensures
        r.wf(),
        r.stops() matches Some(x) && x.stop_total() == 0 && x.breakpoint_count() == 0 && x.step_count() == 0
            && x.exception_count() == 0 && x.signal_counts().len() == 0 && x.exit() is None,
        r.counts() matches Some(x) && x.total_count() == 0 && x.counts().len() == 0,
        r.transitions() matches Some(x) && x.state() == (None::<Seq<char>>, Seq::<(u64, Seq<char>, Seq<char>)>::empty(),
            Seq::<Seq<char>>::empty(), 0nat),
        r.added().len() == 0,
{
    AnalyzerSet {
        stops: Some(StopSummary::new()),
        counts: Some(InstructionCounts::new()),
        transitions: Some(FunctionTransitions::new()),
        added: Vec::new(),
    }
}

impl AnalyzerSet {
    /// The set with `a` added after its analyses. The contract says where
    /// the new analysis goes, not that it is `a` (see `Registered::new`).
    pub fn with(self, a: Box<dyn Analyzer>) -> (r: AnalyzerSet)
        ensures
            r.stops() == self.stops() && r.counts() == self.counts() && r.transitions() == self.transitions(),
            r.added().len() == self.added().len() + 1,
            forall|i: int| 0 <= i < self.added().len() ==> #[trigger] r.added()[i] == self.added()[i],
    {
        let mut s = self;
        s.push(a);
        s
    }

    /// Adds `a` after the set's analyses, as `with` does.
    pub fn push(&mut self, a: Box<dyn Analyzer>)
        ensures
            final(self).stops() == old(self).stops() && final(self).counts() == old(self).counts()
                && final(self).transitions() == old(self).transitions(),
            final(self).added().len() == old(self).added().len() + 1,
            forall|i: int| 0 <= i < old(self).added().len() ==> #[trigger] final(self).added()[i] == old(self).added()[i],
    {
        let entry = Registered::new(a);
        self.added.push(entry);
    }

    /// Hands the event to each analysis in turn; one whose counters are
    /// full, or that is not consistent, is left as it is.
    pub fn on_event(&mut self, event: &SequencedEvent, ctx: &mut AnalysisContext)
        requires
            old(self).wf(),
            old(ctx).wf(),
        ensures
            final(self).wf(),
            final(ctx).wf(),
            same_symbols(old(ctx).symbols(), final(ctx).symbols()),
            match (old(ctx).handle(), final(ctx).handle()) {
                (Some(g), Some(h)) => *final(h) == *final(g),
                (None, None) => true,
                _ => false,
            },
            set_took(*old(self), *event, old(ctx).symbols(), *final(self)),
    {
        let ghost a = *self;
        let ghost syms = ctx.symbols();
        match &mut self.stops {
            Some(x) => {
                if x.has_room() {
                    x.on_event(event);
                }
            },
            None => {},
        }
        match &mut self.counts {
            Some(x) => {
                if x.has_room() {
                    x.on_event(event, ctx);
                }
            },
            None => {},
        }
        let ghost syms1 = ctx.symbols();
        match &mut self.transitions {
            Some(x) => {
                x.on_event(event, ctx);
                proof {
                    lemma_same_labels(syms, syms1);
                }
            },
            None => {},
        }
        let mut rest: Vec<Registered> = Vec::new();
        std::mem::swap(&mut rest, &mut self.added);
        let ghost all = rest@;
        let ghost s1 = ctx.symbols();
        let ghost h1 = ctx.handle();
        let mut done: Vec<Registered> = Vec::new();
        while rest.len() > 0
            invariant
                done@.len() + rest@.len() == all.len(),
                rest@ == all.skip(done@.len() as int),
                forall|i: int| 0 <= i < done@.len() && all[i].analyzer.inv() ==> (#[trigger] done@[i]).analyzer.inv(),
                ctx.wf(),
                same_symbols(s1, ctx.symbols()),
                match (h1, ctx.handle()) {
                    (Some(g), Some(h)) => *final(h) == *final(g),
                    (None, None) => true,
                    _ => false,
                },
            decreases rest@.len(),
        {
            let ghost k = done@.len() as int;
            let mut m = rest.remove(0);
            proof {
                assert(m == all[k]);
                assert(rest@ =~= all.skip(k + 1));
            }
            if m.analyzer.has_room() {
                m.analyzer.on_event(event, ctx);
            }
            done.push(m);
        }
        self.added = done;
        proof {
            lemma_same_symbols_trans(syms, syms1, s1);
            lemma_same_symbols_trans(syms, s1, ctx.symbols());
        }
    }

    /// The findings of every analysis: the built-in ones', then the added
    /// ones', in order.
    pub fn findings(&self) -> (r: Vec<Finding>)
        requires
            self.wf(),
        ensures
            set_reported(*self, r@),
    {
        let mut out: Vec<Finding> = Vec::new();
        let mut f1: Vec<Finding> = match &self.stops {
            Some(x) => x.findings(),
            None => Vec::new(),
        };
        let mut f2: Vec<Finding> = match &self.counts {
            Some(x) => x.findings(),
            None => Vec::new(),
        };
        let mut f3: Vec<Finding> = match &self.transitions {
            Some(x) => x.findings(),
            None => Vec::new(),
        };
        let ghost (g1, g2, g3) = (f1@, f2@, f3@);
        proof {
            assert(stops_part(self.stops(), g1));
            assert(counts_part(self.counts(), g2));
            assert(transitions_part(self.transitions(), g3));
        }
        out.append(&mut f1);
        out.append(&mut f2);
        out.append(&mut f3);
        let ghost i0 = g1.len() as int;
        let ghost j0 = i0 + g2.len();
        let ghost k0 = out@.len() as int;
        proof {
            assert(out@ =~= g1 + g2 + g3);
        }
        let ghost head = out@;
        proof {
            assert(out@.skip(k0).len() == 0);
            assert(all_reported(self.added@.take(0), out@.skip(k0)));
        }
        let mut i: usize = 0;
        while i < self.added.len()
            invariant
                i <= self.added@.len(),
                0 <= k0 <= out@.len(),
                out@.take(k0) == head,
                all_reported(self.added@.take(i as int), out@.skip(k0)),
            decreases self.added@.len() - i,
        {
            let mut fs = self.added[i].analyzer.findings();
            let ghost before = out@;
            let ghost got = fs@;
            out.append(&mut fs);
            proof {
                let s = self.added@.take(i + 1);
                let tail = out@.skip(k0);
                let k = before.len() - k0;
                assert(out@ =~= before + got);
                assert(before.len() >= k0);
                assert(s.drop_last() =~= self.added@.take(i as int));
                assert(tail.take(k) =~= before.skip(k0));
                assert(tail.skip(k) =~= got);
                assert(out@.take(k0) =~= before.take(k0));
                assert(s.last() == self.added@[i as int]);
                assert(all_reported(s.drop_last(), tail.take(k)));
                assert(s.len() == i + 1);
                assert(0 <= k <= tail.len());
                assert(all_reported(s, tail));
            }
            i = i + 1;
        }
        proof {
            assert(self.added@.take(i as int) =~= self.added@);
            assert(head =~= g1 + g2 + g3);
            assert(out@.subrange(0, i0) =~= head.subrange(0, i0));
            assert(out@.subrange(i0, j0) =~= head.subrange(i0, j0));
            assert(out@.subrange(j0, k0) =~= head.subrange(j0, k0));
            assert(head.subrange(0, i0) =~= g1);
            assert(head.subrange(i0, j0) =~= g2);
            assert(head.subrange(j0, k0) =~= g3);
            assert(self.added() == self.added@);
        }
        out
    }

    /// How many analyses the set holds.
    pub open spec fn member_count(&self) -> nat {
        (if self.stops() is Some { 1nat } else { 0nat }) + (if self.counts() is Some { 1nat } else { 0nat }) + (if self.transitions()
            is Some { 1nat } else { 0nat }) + self.added().len()
    }

    /// How many analyses the set holds, at most `usize::MAX`.
    pub fn len(&self) -> (r: usize)
        ensures
            r == (if self.member_count() <= usize::MAX { self.member_count() } else { usize::MAX as nat }),
    {
        let mut n: usize = 0;
        if self.stops.is_some() {
            n = n + 1;
        }
        if self.counts.is_some() {
            n = n + 1;
        }
        if self.transitions.is_some() {
            n = n + 1;
        }
        if self.added.len() > usize::MAX - n {
            return usize::MAX;
        }
        n + self.added.len()
    }

    pub fn is_empty(&self) -> (r: bool)
        ensures
            r == (self.member_count() == 0),
    {
        self.stops.is_none() && self.counts.is_none() && self.transitions.is_none() && self.added.len() == 0
    }
}

/// A set holding just the built-in analyses reports the stop tally's
/// findings, then the instruction counts', then the function transitions'.
pub proof fn lemma_builtin_order(s: AnalyzerSet, fs: Seq<Finding>)
    requires
        set_reported(s, fs),
        s.stops() is Some,
        s.counts() is Some,
        s.transitions() is Some,
        s.added().len() == 0,
    ensures
        exists|a: Seq<Finding>, b: Seq<Finding>, c: Seq<Finding>|
            #![trigger a + b + c]
            fs == a + b + c && stops_reported(s.stops().unwrap(), a) && counts_reported(s.counts().unwrap(), b)
                && transitions_reported(s.transitions().unwrap().state(), c),
{
    let (i, j, k) = choose|i: int, j: int, k: int|
        #![trigger fs.subrange(0, i), fs.subrange(i, j), fs.subrange(j, k)]
        0 <= i <= j <= k <= fs.len() && stops_part(s.stops(), fs.subrange(0, i)) && counts_part(s.counts(), fs.subrange(i, j))
            && transitions_part(s.transitions(), fs.subrange(j, k)) && all_reported(s.added(), fs.skip(k));
    assert(fs.skip(k).len() == 0);
    let (a, b, c) = (fs.subrange(0, i), fs.subrange(i, j), fs.subrange(j, k));
    assert(fs =~= a + b + c);
}

proof fn lemma_same_symbols_trans(a: Option<SymbolIndex>, b: Option<SymbolIndex>, c: Option<SymbolIndex>)
    requires
        same_symbols(a, b),
        same_symbols(b, c),
    ensures
        same_symbols(a, c),
{
}

/// Symbols with the same entries resolve every address alike.
proof fn lemma_same_labels(a: Option<SymbolIndex>, b: Option<SymbolIndex>)
    requires
        same_symbols(a, b),
    ensures
        forall|x: crate::bind_core::address::Address| #[trigger] crate::analysis::analyzers::resolved_label(a, x)
            == crate::analysis::analyzers::resolved_label(b, x),
{
}

} // verus!
