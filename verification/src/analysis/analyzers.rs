//! The concrete analyses.
//!
//! Each consumes the event stream one event at a time. Stop tallies are
//! `High` confidence (directly counted); instruction counts are `Medium`;
//! function transitions and stack depth are `Low`, being inferred from
//! stepping granularity and symbol resolution.
use vstd::prelude::*;
use crate::bind_core::address::Address;
use crate::bind_core::event::{DebugEvent, SequencedEvent};
use crate::bind_core::model::StopReason;
use crate::num::{dec_digits, signed_dec, hex_addr, fmt_dec, fmt_signed, fmt_hex_addr};
use crate::text::{chars_of, string_of, push_str, push_chars, chars_eq, prefix_before, split_first};
use crate::analysis::analyzer::{AnalysisContext, Analyzer};
use crate::analysis::finding::{Confidence, Finding};
use crate::analysis::tally::{tally_view, tally_bump, tally_add, tally_index, lemma_tally_index_found, rank_tallies, ranked_order};
use crate::symbols::index::{SymbolIndex, covering_entry, function_label};

verus! {

/// The views of a list of strings.
pub open spec fn string_views(v: Seq<String>) -> Seq<Seq<char>> {
    v.map_values(|s: String| s@)
}

/// Every counter is below the maximum.
pub open spec fn all_below_max(s: Seq<(Seq<char>, u64)>) -> bool {
    forall|i: int| 0 <= i < s.len() ==> (#[trigger] s[i]).1 < u64::MAX
}

fn dec_string(n: u64) -> (r: Vec<char>)
    ensures
        r@ == dec_digits(n as nat),
{
    fmt_dec(n)
}

// ----------------------------------------------------------------------------
// Stop summary

/// Tallies why and how often the target stopped.
pub struct StopSummary {
    breakpoints: u64,
    steps: u64,
    signals: Vec<(String, u64)>,
    exceptions: u64,
    exit_code: Option<i32>,
    total_stops: u64,
}

/// The summary line of a stop tally.
pub open spec fn stop_summary_text(total: u64, breakpoints: u64, steps: u64, exit: Option<i32>) -> Seq<char> {
    let head = dec_digits(total as nat) + " stops: "@ + dec_digits(breakpoints as nat) + " breakpoint, "@
        + dec_digits(steps as nat) + " step"@;
    match exit {
        Some(c) => head + "; exited "@ + signed_dec(c as int),
        None => head,
    }
}

/// One evidence line per signal, in the order signals were first seen.
pub open spec fn signal_lines(s: Seq<(Seq<char>, u64)>) -> Seq<Seq<char>> {
    s.map_values(|p: (Seq<char>, u64)| "signal "@ + p.0 + " x"@ + dec_digits(p.1 as nat))
}

/// What a stop tally makes of one event: a stop counts by its reason, a
/// received signal by its name, and an exit keeps its code.
pub open spec fn stop_taken(a: StopSummary, e: DebugEvent, b: StopSummary) -> bool {
    match e {
        DebugEvent::Stopped { reason, .. } => {
            &&& b.stop_total() == a.stop_total() + 1
            &&& b.breakpoint_count() == a.breakpoint_count()
                + if reason is Breakpoint { 1int } else { 0int }
            &&& b.step_count() == a.step_count() + if reason is Step { 1int } else { 0int }
            &&& b.exception_count() == a.exception_count()
                + if reason is Exception { 1int } else { 0int }
            &&& b.signal_counts() == match reason {
                StopReason::Signal(s) => tally_bump(a.signal_counts(), s@),
                _ => a.signal_counts(),
            }
            &&& b.exit() == a.exit()
        },
        DebugEvent::SignalReceived { signal, .. } => {
            &&& b.signal_counts() == tally_bump(a.signal_counts(), signal@)
            &&& b.stop_total() == a.stop_total()
            &&& b.breakpoint_count() == a.breakpoint_count()
            &&& b.step_count() == a.step_count()
            &&& b.exception_count() == a.exception_count()
            &&& b.exit() == a.exit()
        },
        DebugEvent::ProcessExited { code } => {
            &&& b.exit() == Some(code)
            &&& b.signal_counts() == a.signal_counts()
            &&& b.stop_total() == a.stop_total()
            &&& b.breakpoint_count() == a.breakpoint_count()
            &&& b.step_count() == a.step_count()
            &&& b.exception_count() == a.exception_count()
        },
        _ => {
            &&& b.exit() == a.exit()
            &&& b.signal_counts() == a.signal_counts()
            &&& b.stop_total() == a.stop_total()
            &&& b.breakpoint_count() == a.breakpoint_count()
            &&& b.step_count() == a.step_count()
            &&& b.exception_count() == a.exception_count()
        },
    }
}

/// The findings a stop tally reports: one, with the summary line and a line
/// per signal, then the exception count when there were any.
pub open spec fn stops_reported(s: StopSummary, fs: Seq<Finding>) -> bool {
    &&& fs.len() == 1
    &&& fs[0].analyzer@ == "stop-summary"@
    &&& fs[0].kind@ == "stop-summary"@
    &&& fs[0].summary@ == stop_summary_text(s.stop_total(), s.breakpoint_count(), s.step_count(), s.exit())
    &&& string_views(fs[0].evidence@) == signal_lines(s.signal_counts()) + if s.exception_count() > 0 {
        seq![dec_digits(s.exception_count() as nat) + " exception(s)"@]
    } else {
        Seq::<Seq<char>>::empty()
    }
    &&& fs[0].related_events@.len() == 0
    &&& fs[0].location is None
    &&& fs[0].confidence == Confidence::High
    &&& fs[0].limitations is None
}

impl StopSummary {
    pub closed spec fn breakpoint_count(&self) -> u64 {
        self.breakpoints
    }

    pub closed spec fn step_count(&self) -> u64 {
        self.steps
    }

    /// Signal counts by name, in the order signals were first seen.
    pub closed spec fn signal_counts(&self) -> Seq<(Seq<char>, u64)> {
        tally_view(self.signals@)
    }

    pub closed spec fn exception_count(&self) -> u64 {
        self.exceptions
    }

    pub closed spec fn exit(&self) -> Option<i32> {
        self.exit_code
    }

    pub closed spec fn stop_total(&self) -> u64 {
        self.total_stops
    }

    /// Every per-reason tally is bounded by the number of stops.
    pub closed spec fn wf(&self) -> bool {
        &&& self.breakpoints <= self.total_stops
        &&& self.steps <= self.total_stops
        &&& self.exceptions <= self.total_stops
    }

    pub fn new() -> (r: StopSummary)
        ensures
            r.wf(),
            r.breakpoint_count() == 0,
            r.step_count() == 0,
            r.signal_counts().len() == 0,
            r.exception_count() == 0,
            r.exit() is None,
            r.stop_total() == 0,
    {
        StopSummary {
            breakpoints: 0,
            steps: 0,
            signals: Vec::new(),
            exceptions: 0,
            exit_code: None,
            total_stops: 0,
        }
    }

    pub fn name(&self) -> (r: &'static str)
        ensures
            r@ == "stop-summary"@,
    {
        "stop-summary"
    }

    /// Counts a stop by its reason, a received signal, or the exit code.
    pub fn on_event(&mut self, event: &SequencedEvent)
        requires
            old(self).wf(),
            old(self).stop_total() < u64::MAX,
            all_below_max(old(self).signal_counts()),
        ensures
            final(self).wf(),
            stop_taken(*old(self), event.event, *final(self)),
    {
        proof {
            assert forall|i: int| 0 <= i < self.signals@.len() implies (#[trigger] self.signals@[i]).1 < u64::MAX by {
                assert(tally_view(self.signals@)[i].1 == self.signals@[i].1);
            }
        }
        match &event.event {
            DebugEvent::Stopped { reason, .. } => {
                self.total_stops = self.total_stops + 1;
                match reason {
                    StopReason::Breakpoint(_) => {
                        self.breakpoints = self.breakpoints + 1;
                    },
                    StopReason::Step => {
                        self.steps = self.steps + 1;
                    },
                    StopReason::Signal(s) => {
                        tally_add(&mut self.signals, s.as_str());
                    },
                    StopReason::Exception(_) => {
                        self.exceptions = self.exceptions + 1;
                    },
                    _ => {},
                }
            },
            DebugEvent::SignalReceived { signal, .. } => {
                tally_add(&mut self.signals, signal.as_str());
            },
            DebugEvent::ProcessExited { code } => {
                self.exit_code = Some(*code);
            },
            _ => {},
        }
    }

    /// The single stop-summary finding.
    pub fn findings(&self) -> (r: Vec<Finding>)
        ensures
            stops_reported(*self, r@),
    {
        let mut s = dec_string(self.total_stops);
        push_str(&mut s, " stops: ");
        let b = dec_string(self.breakpoints);
        push_chars(&mut s, b.as_slice());
        push_str(&mut s, " breakpoint, ");
        let st = dec_string(self.steps);
        push_chars(&mut s, st.as_slice());
        push_str(&mut s, " step");
        if let Some(code) = self.exit_code {
            push_str(&mut s, "; exited ");
            let c = fmt_signed(code as i64);
            push_chars(&mut s, c.as_slice());
        }
        let summary = string_of(s.as_slice());
        let mut f = Finding::new("stop-summary", "stop-summary", summary.as_str(), Confidence::High);
        let ghost sigs = tally_view(self.signals@);
        let mut i: usize = 0;
        while i < self.signals.len()
            invariant
                i <= self.signals@.len(),
                sigs == tally_view(self.signals@),
                string_views(f.evidence@) == signal_lines(sigs).take(i as int),
                f.analyzer@ == "stop-summary"@,
                f.kind@ == "stop-summary"@,
                f.summary@ == stop_summary_text(self.total_stops, self.breakpoints, self.steps, self.exit_code),
                f.related_events@.len() == 0,
                f.location is None,
                f.confidence == Confidence::High,
                f.limitations is None,
            decreases self.signals@.len() - i,
        {
            let mut line: Vec<char> = Vec::new();
            push_str(&mut line, "signal ");
            let nm = chars_of(self.signals[i].0.as_str());
            push_chars(&mut line, nm.as_slice());
            push_str(&mut line, " x");
            let n = dec_string(self.signals[i].1);
            push_chars(&mut line, n.as_slice());
            let ls = string_of(line.as_slice());
            let ghost before = f.evidence@;
            f = f.with_evidence(ls.as_str());
            proof {
                assert(sigs[i as int] == (self.signals@[i as int].0@, self.signals@[i as int].1));
                assert(string_views(f.evidence@) =~= string_views(before).push(ls@));
                assert(signal_lines(sigs).take(i + 1) =~= signal_lines(sigs).take(i as int).push(ls@));
            }
            i = i + 1;
        }
        proof {
            assert(signal_lines(sigs).take(self.signals@.len() as int) =~= signal_lines(sigs));
        }
        if self.exceptions > 0 {
            let mut line = dec_string(self.exceptions);
            push_str(&mut line, " exception(s)");
            let ls = string_of(line.as_slice());
            let ghost before = f.evidence@;
            f = f.with_evidence(ls.as_str());
            proof {
                assert(string_views(f.evidence@) =~= string_views(before).push(ls@));
                assert(string_views(f.evidence@) =~= signal_lines(sigs) + seq![dec_digits(self.exceptions as nat) + " exception(s)"@]);
            }
        } else {
            assert(string_views(f.evidence@) =~= signal_lines(sigs) + Seq::<Seq<char>>::empty());
        }
        let mut out: Vec<Finding> = Vec::new();
        out.push(f);
        out
    }
}

// ----------------------------------------------------------------------------
// Symbol labels

/// The label that symbol resolution gives `a`, when it resolves.
pub open spec fn resolved_label(syms: Option<SymbolIndex>, a: Address) -> Option<Seq<char>> {
    match syms {
        Some(s) => match covering_entry(s.entries(), a.0) {
            Some(e) => Some(function_label(e, a.0)),
            None => None,
        },
        None => None,
    }
}

/// The label of a stepped-to address: its symbol label, else `<0x...>`.
pub open spec fn step_label(syms: Option<SymbolIndex>, a: Address) -> Seq<char> {
    match resolved_label(syms, a) {
        Some(l) => l,
        None => "<"@ + hex_addr(a.0 as nat) + ">"@,
    }
}

/// A function label without its `+0x...` offset.
pub open spec fn function_base(label: Seq<char>) -> Seq<char> {
    prefix_before(label, "+0x"@)
}

/// Symbol resolution leaves the index's entries and names unchanged.
pub open spec fn same_symbols(a: Option<SymbolIndex>, b: Option<SymbolIndex>) -> bool {
    match (a, b) {
        (Some(x), Some(y)) => x.entries() == y.entries() && x.named() == y.named(),
        (None, None) => true,
        _ => false,
    }
}

proof fn lemma_function_at(before: AnalysisContext, after: AnalysisContext, addr: Address, r: Option<String>)
    requires
        match before.symbols() {
            None => r is None && after.symbols() is None,
            Some(s) => after.symbols() is Some
                && after.symbols().unwrap().entries() == s.entries()
                && after.symbols().unwrap().named() == s.named()
                && match covering_entry(s.entries(), addr.0) {
                    None => r is None,
                    Some(e) => r is Some && r.unwrap()@ == function_label(e, addr.0),
                },
        },
    ensures
        same_symbols(before.symbols(), after.symbols()),
        match r {
            Some(l) => resolved_label(before.symbols(), addr) == Some(l@),
            None => resolved_label(before.symbols(), addr) is None,
        },
{
}

fn function_base_of(label: &[char]) -> (r: Vec<char>)
    ensures
        r@ == function_base(label@),
{
    let marker = chars_of("+0x");
    split_first(label, marker.as_slice())
}

// ----------------------------------------------------------------------------
// Instruction counts

/// Counts instructions actually stepped, grouped by resolved function.
pub struct InstructionCounts {
    per_function: Vec<(String, u64)>,
    total: u64,
}

/// `100 * part / whole` rounded to the nearest integer, ties to even (what
/// `{:.0}` prints for the percentage).
pub open spec fn percent_rounded(part: nat, whole: nat) -> nat {
    let q = (100 * part) / whole;
    let r = (100 * part) % whole;
    if 2 * r > whole {
        q + 1
    } else if 2 * r < whole {
        q
    } else if q % 2 == 0 {
        q
    } else {
        q + 1
    }
}

/// The summary line naming the hottest function.
pub open spec fn hot_summary(total: u64, hottest: (Seq<char>, u64)) -> Seq<char> {
    dec_digits(total as nat) + " stepped instruction(s); hottest: "@ + hottest.0 + " ("@
        + dec_digits(hottest.1 as nat) + " = "@ + dec_digits(percent_rounded(hottest.1 as nat, total as nat))
        + "%)"@
}

/// `name: count` lines.
pub open spec fn count_lines(s: Seq<(Seq<char>, u64)>) -> Seq<Seq<char>> {
    s.map_values(|p: (Seq<char>, u64)| p.0 + ": "@ + dec_digits(p.1 as nat))
}

/// The hot-function finding for the ranked counts `rk`.
pub open spec fn hot_finding(f: Finding, total: u64, rk: Seq<(Seq<char>, u64)>) -> bool {
    &&& f.analyzer@ == "instruction-counts"@
    &&& f.kind@ == "hot-function"@
    &&& f.summary@ == hot_summary(total, rk[0])
    &&& f.location is Some && f.location.unwrap()@ == rk[0].0
    &&& f.limitations is Some
    &&& f.limitations.unwrap()@ == "Counts only single-stepped instructions, not continued execution"@
    &&& string_views(f.evidence@) == count_lines(rk.take(if rk.len() < 5 { rk.len() as int } else { 5 }))
    &&& f.related_events@.len() == 0
    &&& f.confidence == Confidence::Medium
}

fn percent(part: u64, whole: u64) -> (r: u64)
    requires
        0 < whole,
        part <= whole,
    ensures
        r == percent_rounded(part as nat, whole as nat),
{
    let x: u128 = 100u128 * (part as u128);
    let w: u128 = whole as u128;
    let q: u128 = x / w;
    let rem: u128 = x % w;
    assert(q <= 100) by (nonlinear_arith)
        requires
            x <= 100 * w,
            q == x / w,
            w > 0,
    ;
    let q64 = q as u64;
    if 2 * rem > w {
        q64 + 1
    } else if 2 * rem < w {
        q64
    } else if q64 % 2 == 0 {
        q64
    } else {
        q64 + 1
    }
}

/// What instruction counts make of one event: a step counts under the
/// function its address resolves to, or under the address itself.
pub open spec fn step_counted(a: InstructionCounts, e: DebugEvent, syms: Option<SymbolIndex>, b: InstructionCounts) -> bool {
    match e {
        DebugEvent::InstructionStepped { to, .. } => {
            &&& b.total_count() == a.total_count() + 1
            &&& b.counts() == tally_bump(a.counts(), function_base(step_label(syms, to)))
        },
        _ => b.total_count() == a.total_count() && b.counts() == a.counts(),
    }
}

/// The findings instruction counts report: none before the first step;
/// else the hot-function finding over the counts ranked by size.
pub open spec fn counts_reported(c: InstructionCounts, fs: Seq<Finding>) -> bool {
    &&& c.total_count() == 0 ==> fs.len() == 0
    &&& c.total_count() > 0 ==> fs.len() == 1 && exists|rk: Seq<(Seq<char>, u64)>|
        ranked_order(rk) && rk.to_multiset() == c.counts().to_multiset() && rk.len() > 0
        && #[trigger] hot_finding(fs[0], c.total_count(), rk)
}

impl InstructionCounts {
    /// Stepped instructions by function, in the order functions were first seen.
    pub closed spec fn counts(&self) -> Seq<(Seq<char>, u64)> {
        tally_view(self.per_function@)
    }

    pub closed spec fn total_count(&self) -> u64 {
        self.total
    }

    /// No function has more steps than the total.
    pub closed spec fn wf(&self) -> bool {
        &&& forall|i: int| 0 <= i < self.per_function@.len() ==> (#[trigger] self.per_function@[i]).1 <= self.total
        &&& self.total > 0 ==> self.per_function@.len() > 0
    }

    pub fn new() -> (r: InstructionCounts)
        ensures
            r.wf(),
            r.counts().len() == 0,
            r.total_count() == 0,
    {
        InstructionCounts { per_function: Vec::new(), total: 0 }
    }

    pub fn name(&self) -> (r: &'static str)
        ensures
            r@ == "instruction-counts"@,
    {
        "instruction-counts"
    }

    /// Counts a stepped instruction under the function it landed in.
    pub fn on_event(&mut self, event: &SequencedEvent, ctx: &mut AnalysisContext)
        requires
            old(self).wf(),
            old(self).total_count() < u64::MAX,
            old(ctx).wf(),
        ensures
            final(self).wf(),
            final(ctx).wf(),
            same_symbols(old(ctx).symbols(), final(ctx).symbols()),
            match (old(ctx).handle(), final(ctx).handle()) {
                (Some(g), Some(h)) => *final(h) == *final(g),
                (None, None) => true,
                _ => false,
            },
            step_counted(*old(self), event.event, old(ctx).symbols(), *final(self)),
            !(event.event is InstructionStepped) ==> final(ctx).symbols() == old(ctx).symbols(),
    {
        match &event.event {
            DebugEvent::InstructionStepped { to, .. } => {
                let ghost before = *ctx;
                let resolved = ctx.function_at(*to);
                proof {
                    lemma_function_at(before, *ctx, *to, resolved);
                }
                let label: Vec<char> = match resolved {
                    Some(n) => chars_of(n.as_str()),
                    None => {
                        let mut v: Vec<char> = Vec::new();
                        v.push('<');
                        let h = fmt_hex_addr(to.0);
                        push_chars(&mut v, h.as_slice());
                        v.push('>');
                        assert(v@ =~= "<"@ + hex_addr(to.0 as nat) + ">"@) by {
                            reveal_strlit("<");
                            reveal_strlit(">");
                        }
                        v
                    },
                };
                let func = function_base_of(label.as_slice());
                let fs = string_of(func.as_slice());
                proof {
                    assert forall|i: int| 0 <= i < self.per_function@.len()
                        implies (#[trigger] self.per_function@[i]).1 < u64::MAX by {}
                }
                let ghost old_pf = self.per_function@;
                let ghost old_total = self.total;
                tally_add(&mut self.per_function, fs.as_str());
                self.total = self.total + 1;
                proof {
                    let s = tally_view(old_pf);
                    lemma_tally_index_found(s, fs@, 0);
                    let k = tally_index(s, fs@);
                    let t = tally_view(self.per_function@);
                    assert(t == tally_bump(s, fs@));
                    assert forall|i: int| 0 <= i < self.per_function@.len()
                        implies (#[trigger] self.per_function@[i]).1 <= self.total by {
                        assert(t[i].1 == self.per_function@[i].1);
                        if i < old_pf.len() {
                            assert(s[i].1 == old_pf[i].1);
                            assert(old_pf[i].1 <= old_total);
                        }
                        if k >= 0 {
                            if i != k {
                                assert(t[i] == s[i]);
                            }
                        } else if i < s.len() {
                            assert(t[i] == s[i]);
                        }
                    }
                    assert(t.len() > 0);
                }
            },
            _ => {},
        }
    }

    /// The hot-function finding, or nothing before the first step.
    pub fn findings(&self) -> (r: Vec<Finding>)
        requires
            self.wf(),
        ensures
            counts_reported(*self, r@),
    {
        if self.total == 0 {
            return Vec::new();
        }
        let ranked = rank_tallies(&self.per_function);
        let ghost rk = tally_view(ranked@);
        proof {
            assert(self.per_function@.len() > 0) by {
                if self.per_function@.len() == 0 {
                    assert(tally_view(self.per_function@) =~= Seq::<(Seq<char>, u64)>::empty());
                }
            }
            broadcast use vstd::seq_lib::group_to_multiset_ensures;
            assert(self.counts().len() == self.per_function@.len());
            assert(rk.to_multiset().len() == rk.len());
            assert(self.counts().to_multiset().len() == self.counts().len());
            assert(rk.len() == self.counts().len());
            assert(rk.contains(rk[0]));
            assert(rk.to_multiset().count(rk[0]) > 0);
            assert(self.counts().to_multiset().count(rk[0]) > 0);
            assert(self.counts().contains(rk[0]));
            let j = choose|j: int| 0 <= j < self.counts().len() && self.counts()[j] == rk[0];
            assert(self.counts()[j].1 == self.per_function@[j].1);
            assert(rk[0].1 <= self.total);
            assert(rk[0] == (ranked@[0].0@, ranked@[0].1));
        }
        let hottest_name = ranked[0].0.clone();
        let hottest_count = ranked[0].1;
        let mut s = dec_string(self.total);
        push_str(&mut s, " stepped instruction(s); hottest: ");
        let hn = chars_of(hottest_name.as_str());
        push_chars(&mut s, hn.as_slice());
        push_str(&mut s, " (");
        let hc = dec_string(hottest_count);
        push_chars(&mut s, hc.as_slice());
        push_str(&mut s, " = ");
        let pc = dec_string(percent(hottest_count, self.total));
        push_chars(&mut s, pc.as_slice());
        push_str(&mut s, "%)");
        let summary = string_of(s.as_slice());
        let mut f = Finding::new("instruction-counts", "hot-function", summary.as_str(), Confidence::Medium)
            .with_location(hottest_name.as_str())
            .with_limitations("Counts only single-stepped instructions, not continued execution");
        let limit: usize = if ranked.len() < 5 { ranked.len() } else { 5 };
        let mut i: usize = 0;
        while i < limit
            invariant
                i <= limit <= ranked@.len(),
                string_views(f.evidence@) == count_lines(rk.take(i as int)),
                rk == tally_view(ranked@),
                limit == if rk.len() < 5 { rk.len() as int } else { 5 },
                f.analyzer@ == "instruction-counts"@,
                f.kind@ == "hot-function"@,
                f.summary@ == hot_summary(self.total, rk[0]),
                f.location is Some && f.location.unwrap()@ == rk[0].0,
                f.limitations is Some,
                f.limitations.unwrap()@ == "Counts only single-stepped instructions, not continued execution"@,
                f.related_events@.len() == 0,
                f.confidence == Confidence::Medium,
            decreases limit - i,
        {
            let mut line = chars_of(ranked[i].0.as_str());
            push_str(&mut line, ": ");
            let n = dec_string(ranked[i].1);
            push_chars(&mut line, n.as_slice());
            let ls = string_of(line.as_slice());
            let ghost before = f.evidence@;
            f = f.with_evidence(ls.as_str());
            proof {
                assert(string_views(f.evidence@) =~= string_views(before).push(ls@));
                assert(rk[i as int] == (ranked@[i as int].0@, ranked@[i as int].1));
                assert(count_lines(rk.take(i + 1)) =~= count_lines(rk.take(i as int)).push(ls@));
            }
            i = i + 1;
        }
        proof {
            assert(hot_finding(f, self.total, rk));
        }
        let mut out: Vec<Finding> = Vec::new();
        out.push(f);
        proof {
            assert(out@[0] == f);
            assert(hot_finding(out@[0], self.total, rk));
            assert(ranked_order(rk) && rk.to_multiset() == self.counts().to_multiset() && rk.len() > 0);
        }
        out
    }
}

// ----------------------------------------------------------------------------
// Function transitions

/// The address an event moves execution to: the target of a step, or the pc
/// of a stop.
pub open spec fn event_address(e: DebugEvent) -> Option<Address> {
    match e {
        DebugEvent::InstructionStepped { to, .. } => Some(to),
        DebugEvent::Stopped { pc, .. } => pc,
        _ => None,
    }
}

/// The stack with entries above the topmost `f` popped.
pub open spec fn pop_to(stack: Seq<Seq<char>>, f: Seq<char>) -> Seq<Seq<char>>
    decreases stack.len(),
{
    if stack.len() == 0 || stack.last() == f {
        stack
    } else {
        pop_to(stack.drop_last(), f)
    }
}

/// The inferred state after execution is seen in function `f` at event `seq`:
/// the last function, the transitions, the call stack and the maximum depth.
pub open spec fn transition_step(
    state: (Option<Seq<char>>, Seq<(u64, Seq<char>, Seq<char>)>, Seq<Seq<char>>, nat),
    seq: u64,
    f: Seq<char>,
) -> (Option<Seq<char>>, Seq<(u64, Seq<char>, Seq<char>)>, Seq<Seq<char>>, nat) {
    let (last, trans, stack, depth) = state;
    match last {
        None => (Some(f), trans, stack.push(f), if depth < 1 { 1 } else { depth }),
        Some(p) => if p == f {
            state
        } else if stack.contains(f) {
            (Some(f), trans.push((seq, p, f)), pop_to(stack, f), depth)
        } else {
            let s2 = stack.push(f);
            (Some(f), trans.push((seq, p, f)), s2, if depth < s2.len() { s2.len() } else { depth })
        },
    }
}

/// No stack before the first function; afterwards the top of the inferred
/// stack is the current function; the stack never exceeds the maximum depth.
pub open spec fn transitions_consistent(
    state: (Option<Seq<char>>, Seq<(u64, Seq<char>, Seq<char>)>, Seq<Seq<char>>, nat),
) -> bool {
    &&& match state.0 {
        None => state.2.len() == 0,
        Some(p) => state.2.len() > 0 && state.2.last() == p,
    }
    &&& state.2.len() <= state.3
}

/// Seeing execution in `f` makes `f` the current function and the top of the
/// inferred call stack, and keeps the stack within the maximum depth.
pub proof fn lemma_transition_step(
    state: (Option<Seq<char>>, Seq<(u64, Seq<char>, Seq<char>)>, Seq<Seq<char>>, nat),
    seq: u64,
    f: Seq<char>,
)
    requires
        transitions_consistent(state),
    ensures
        transitions_consistent(transition_step(state, seq, f)),
        transition_step(state, seq, f).0 == Some(f),
        transition_step(state, seq, f).3 >= state.3,
{
    match state.0 {
        None => {},
        Some(p) => {
            if p != f && state.2.contains(f) {
                lemma_pop_to(state.2, f);
            }
        },
    }
}

/// `from -> to` lines.
pub open spec fn transition_lines(s: Seq<(u64, Seq<char>, Seq<char>)>) -> Seq<Seq<char>> {
    s.map_values(|t: (u64, Seq<char>, Seq<char>)| t.1 + " -> "@ + t.2)
}

proof fn lemma_pop_to(stack: Seq<Seq<char>>, f: Seq<char>)
    requires
        stack.contains(f),
    ensures
        pop_to(stack, f).len() > 0,
        pop_to(stack, f).last() == f,
        pop_to(stack, f).len() <= stack.len(),
        pop_to(stack, f) == stack.take(pop_to(stack, f).len() as int),
    decreases stack.len(),
{
    if stack.last() != f {
        let t = stack.drop_last();
        let i = choose|i: int| 0 <= i < stack.len() && stack[i] == f;
        assert(i < stack.len() - 1);
        assert(t[i] == f);
        lemma_pop_to(t, f);
        let k = pop_to(t, f).len() as int;
        assert(t.take(k) =~= stack.take(k));
    } else {
        assert(stack.take(stack.len() as int) =~= stack);
    }
}

fn pop_until(stack: &mut Vec<String>, f: &String)
    requires
        string_views(old(stack)@).contains(f@),
    ensures
        string_views(final(stack)@) == pop_to(string_views(old(stack)@), f@),
        final(stack)@.len() <= old(stack)@.len(),
{
    let ghost stack0 = string_views(stack@);
    while stack.len() > 0 && stack[stack.len() - 1] != *f
        invariant
            stack0 == string_views(old(stack)@),
            pop_to(string_views(stack@), f@) == pop_to(stack0, f@),
            stack@.len() <= stack0.len(),
        decreases stack@.len(),
    {
        let ghost cur = string_views(stack@);
        proof {
            assert(cur.last() == stack@[stack@.len() - 1]@);
        }
        stack.pop();
        proof {
            assert(string_views(stack@) =~= cur.drop_last());
        }
    }
    proof {
        let cur = string_views(stack@);
        if cur.len() > 0 {
            assert(cur.last() == stack@[stack@.len() - 1]@);
        }
    }
}

/// Records function transitions (a change of resolved function across
/// steps) and infers an approximate stack depth from call/return patterns.
pub struct FunctionTransitions {
    last_function: Option<String>,
    transitions: Vec<(u64, String, String)>,
    call_stack: Vec<String>,
    max_depth: usize,
}

/// What function transitions make of one event: an event at an address
/// that resolves to a function is a step into that function.
pub open spec fn transition_taken(
    a: (Option<Seq<char>>, Seq<(u64, Seq<char>, Seq<char>)>, Seq<Seq<char>>, nat),
    event: SequencedEvent,
    syms: Option<SymbolIndex>,
    b: (Option<Seq<char>>, Seq<(u64, Seq<char>, Seq<char>)>, Seq<Seq<char>>, nat),
) -> bool {
    let t = match event_address(event.event) {
        Some(x) => match resolved_label(syms, x) {
            Some(l) => transition_step(a, event.seq.0, function_base(l)),
            None => a,
        },
        None => a,
    };
    b.0 == t.0 && b.1 =~= t.1 && b.2 =~= t.2 && b.3 == t.3
}

/// The findings function transitions report: none before the first
/// transition; else one listing the first eight.
pub open spec fn transitions_reported(
    st: (Option<Seq<char>>, Seq<(u64, Seq<char>, Seq<char>)>, Seq<Seq<char>>, nat),
    fs: Seq<Finding>,
) -> bool {
    &&& st.1.len() == 0 ==> fs.len() == 0
    &&& st.1.len() > 0 ==> {
        let shown = st.1.take(if st.1.len() < 8 { st.1.len() as int } else { 8 });
        &&& fs.len() == 1
        &&& fs[0].analyzer@ == "function-transitions"@
        &&& fs[0].kind@ == "function-transitions"@
        &&& fs[0].summary@ == dec_digits(st.1.len()) + " function transition(s); inferred max stack depth "@ + dec_digits(st.3)
        &&& fs[0].confidence == Confidence::Low
        &&& fs[0].limitations is Some
        &&& fs[0].limitations.unwrap()@
            == "Transitions and depth are inferred from stepping + symbol changes; tail calls and missing symbols reduce accuracy"@
        &&& fs[0].location is None
        &&& fs[0].related_events@ == shown.map_values(|t: (u64, Seq<char>, Seq<char>)| t.0)
        &&& string_views(fs[0].evidence@) == transition_lines(shown)
    }
}

impl FunctionTransitions {
    pub closed spec fn state(&self) -> (Option<Seq<char>>, Seq<(u64, Seq<char>, Seq<char>)>, Seq<Seq<char>>, nat) {
        (
            match self.last_function {
                Some(s) => Some(s@),
                None => None,
            },
            self.transitions@.map_values(|t: (u64, String, String)| (t.0, t.1@, t.2@)),
            string_views(self.call_stack@),
            self.max_depth as nat,
        )
    }

    pub open spec fn wf(&self) -> bool {
        transitions_consistent(self.state())
    }

    pub fn new() -> (r: FunctionTransitions)
        ensures
            r.wf(),
            r.state() == (None::<Seq<char>>, Seq::<(u64, Seq<char>, Seq<char>)>::empty(), Seq::<Seq<char>>::empty(), 0nat),
    {
        let r = FunctionTransitions {
            last_function: None,
            transitions: Vec::new(),
            call_stack: Vec::new(),
            max_depth: 0,
        };
        proof {
            assert(r.state().1 =~= Seq::<(u64, Seq<char>, Seq<char>)>::empty());
            assert(r.state().2 =~= Seq::<Seq<char>>::empty());
        }
        r
    }

    pub fn name(&self) -> (r: &'static str)
        ensures
            r@ == "function-transitions"@,
    {
        "function-transitions"
    }

    /// A function label without its `+0x...` offset.
    pub fn base_name(name: &str) -> (r: String)
        ensures
            r@ == function_base(name@),
    {
        let c = chars_of(name);
        let b = function_base_of(c.as_slice());
        string_of(b.as_slice())
    }

    fn stack_contains(&self, f: &String) -> (r: bool)
        ensures
            r == string_views(self.call_stack@).contains(f@),
    {
        let mut i: usize = self.call_stack.len();
        while i > 0
            invariant
                i <= self.call_stack@.len(),
                forall|j: int| i <= j < self.call_stack@.len() ==> (#[trigger] self.call_stack@[j])@ != f@,
            decreases i,
        {
            if self.call_stack[i - 1] == *f {
                proof {
                    assert(string_views(self.call_stack@)[i - 1] == f@);
                }
                return true;
            }
            i = i - 1;
        }
        proof {
            if string_views(self.call_stack@).contains(f@) {
                let j = choose|j: int| 0 <= j < self.call_stack@.len() && string_views(self.call_stack@)[j] == f@;
                assert(self.call_stack@[j]@ == f@);
            }
        }
        false
    }

    /// Notes the function that the event's address resolves to.
    pub fn on_event(&mut self, event: &SequencedEvent, ctx: &mut AnalysisContext)
        requires
            old(self).wf(),
            old(ctx).wf(),
        ensures
            final(self).wf(),
            final(ctx).wf(),
            same_symbols(old(ctx).symbols(), final(ctx).symbols()),
            match (old(ctx).handle(), final(ctx).handle()) {
                (Some(g), Some(h)) => *final(h) == *final(g),
                (None, None) => true,
                _ => false,
            },
            transition_taken(old(self).state(), *event, old(ctx).symbols(), final(self).state()),
            event_address(event.event) is None ==> final(ctx).symbols() == old(ctx).symbols(),
    {
        let addr: Option<Address> = match &event.event {
            DebugEvent::InstructionStepped { to, .. } => Some(*to),
            DebugEvent::Stopped { pc, .. } => *pc,
            _ => None,
        };
        let addr = match addr {
            Some(a) => a,
            None => {
                return;
            },
        };
        let ghost before_ctx = *ctx;
        let resolved = ctx.function_at(addr);
        proof {
            lemma_function_at(before_ctx, *ctx, addr, resolved);
        }
        let label = match resolved {
            Some(l) => l,
            None => {
                return;
            },
        };
        let func = Self::base_name(label.as_str());
        let ghost f = func@;
        let ghost st = self.state();
        proof {
            lemma_transition_step(st, event.seq.0, f);
        }
        match &self.last_function {
            None => {
                let c = func.clone();
                self.call_stack.push(c);
                if self.max_depth < 1 {
                    self.max_depth = 1;
                }
                self.last_function = Some(func);
                proof {
                    assert(self.state().2 =~= st.2.push(f));
                }
            },
            Some(prev) => {
                if *prev == func {
                    return;
                }
                let p = prev.clone();
                let ghost trans_before = self.transitions@;
                self.transitions.push((event.seq.0, p, func.clone()));
                proof {
                    assert(self.state().1 =~= st.1.push((event.seq.0, st.0.unwrap(), f)));
                }
                if self.stack_contains(&func) {
                    pop_until(&mut self.call_stack, &func);
                } else {
                    let c = func.clone();
                    self.call_stack.push(c);
                    if self.max_depth < self.call_stack.len() {
                        self.max_depth = self.call_stack.len();
                    }
                }
                self.last_function = Some(func);
            },
        }
    }

    /// The transitions finding, or nothing before the first transition.
    pub fn findings(&self) -> (r: Vec<Finding>)
        ensures
            transitions_reported(self.state(), r@),
    {
        if self.transitions.len() == 0 {
            return Vec::new();
        }
        let ghost tv = self.state().1;
        let n = self.transitions.len();
        let mut s = dec_string(n as u64);
        push_str(&mut s, " function transition(s); inferred max stack depth ");
        let d = dec_string(self.max_depth as u64);
        push_chars(&mut s, d.as_slice());
        let summary = string_of(s.as_slice());
        let mut f = Finding::new("function-transitions", "function-transitions", summary.as_str(), Confidence::Low)
            .with_limitations(
                "Transitions and depth are inferred from stepping + symbol changes; tail calls and missing symbols reduce accuracy",
            );
        let limit: usize = if n < 8 { n } else { 8 };
        let mut i: usize = 0;
        while i < limit
            invariant
                i <= limit <= self.transitions@.len(),
                tv == self.state().1,
                string_views(f.evidence@) == transition_lines(tv.take(i as int)),
                f.related_events@ == tv.take(i as int).map_values(|t: (u64, Seq<char>, Seq<char>)| t.0),
                f.analyzer@ == "function-transitions"@,
                f.kind@ == "function-transitions"@,
                f.summary@ == summary@,
                f.confidence == Confidence::Low,
                f.limitations is Some,
                f.limitations.unwrap()@
                    == "Transitions and depth are inferred from stepping + symbol changes; tail calls and missing symbols reduce accuracy"@,
                f.location is None,
            decreases limit - i,
        {
            let t = &self.transitions[i];
            let mut line = chars_of(t.1.as_str());
            push_str(&mut line, " -> ");
            let to = chars_of(t.2.as_str());
            push_chars(&mut line, to.as_slice());
            let ls = string_of(line.as_slice());
            let ghost ev_before = f.evidence@;
            let ghost re_before = f.related_events@;
            f.related_events.push(t.0);
            f = f.with_evidence(ls.as_str());
            proof {
                assert(tv[i as int] == (t.0, t.1@, t.2@));
                assert(string_views(f.evidence@) =~= string_views(ev_before).push(ls@));
                assert(transition_lines(tv.take(i + 1)) =~= transition_lines(tv.take(i as int)).push(ls@));
                assert(f.related_events@ =~= re_before.push(t.0));
                assert(tv.take(i + 1).map_values(|t: (u64, Seq<char>, Seq<char>)| t.0)
                    =~= tv.take(i as int).map_values(|t: (u64, Seq<char>, Seq<char>)| t.0).push(t.0));
            }
            i = i + 1;
        }
        let mut out: Vec<Finding> = Vec::new();
        out.push(f);
        out
    }
}

impl Analyzer for StopSummary {
    open spec fn inv(&self) -> bool {
        self.wf()
    }

    open spec fn room(&self) -> bool {
        self.stop_total() < u64::MAX && all_below_max(self.signal_counts())
    }

    open spec fn reports(&self, fs: Seq<Finding>) -> bool {
        stops_reported(*self, fs)
    }

    open spec fn name_view(&self) -> Seq<char> {
        "stop-summary"@
    }

    fn name(&self) -> (r: &'static str) {
        "stop-summary"
    }

    fn has_room(&self) -> (r: bool) {
        if self.total_stops == u64::MAX || self.breakpoints > self.total_stops || self.steps > self.total_stops
            || self.exceptions > self.total_stops {
            return false;
        }
        let mut i: usize = 0;
        while i < self.signals.len()
            invariant
                i <= self.signals@.len(),
                forall|j: int| 0 <= j < i ==> (#[trigger] tally_view(self.signals@)[j]).1 < u64::MAX,
            decreases self.signals@.len() - i,
        {
            if self.signals[i].1 == u64::MAX {
                assert(tally_view(self.signals@)[i as int].1 == u64::MAX);
                return false;
            }
            i = i + 1;
        }
        true
    }

    fn on_event(&mut self, event: &SequencedEvent, ctx: &mut AnalysisContext) {
        StopSummary::on_event(self, event);
    }

    fn findings(&self) -> (r: Vec<Finding>) {
        StopSummary::findings(self)
    }
}

impl InstructionCounts {
    /// Whether no function has more steps than the total.
    fn consistent(&self) -> (r: bool)
        ensures
            r == self.wf(),
    {
        if self.total > 0 && self.per_function.len() == 0 {
            return false;
        }
        let mut i: usize = 0;
        while i < self.per_function.len()
            invariant
                i <= self.per_function@.len(),
                forall|j: int| 0 <= j < i ==> (#[trigger] self.per_function@[j]).1 <= self.total,
            decreases self.per_function@.len() - i,
        {
            if self.per_function[i].1 > self.total {
                return false;
            }
            i = i + 1;
        }
        true
    }
}

impl Analyzer for InstructionCounts {
    open spec fn inv(&self) -> bool {
        self.wf()
    }

    open spec fn room(&self) -> bool {
        self.total_count() < u64::MAX
    }

    open spec fn reports(&self, fs: Seq<Finding>) -> bool {
        counts_reported(*self, fs)
    }

    open spec fn name_view(&self) -> Seq<char> {
        "instruction-counts"@
    }

    fn name(&self) -> (r: &'static str) {
        "instruction-counts"
    }

    fn has_room(&self) -> (r: bool) {
        self.total < u64::MAX && self.consistent()
    }

    fn on_event(&mut self, event: &SequencedEvent, ctx: &mut AnalysisContext) {
        InstructionCounts::on_event(self, event, ctx);
    }

    fn findings(&self) -> (r: Vec<Finding>) {
        if self.consistent() {
            InstructionCounts::findings(self)
        } else {
            Vec::new()
        }
    }
}

impl Analyzer for FunctionTransitions {
    open spec fn inv(&self) -> bool {
        self.wf()
    }

    open spec fn room(&self) -> bool {
        true
    }

    open spec fn reports(&self, fs: Seq<Finding>) -> bool {
        transitions_reported(self.state(), fs)
    }

    open spec fn name_view(&self) -> Seq<char> {
        "function-transitions"@
    }

    fn name(&self) -> (r: &'static str) {
        "function-transitions"
    }

    fn has_room(&self) -> (r: bool) {
        let n = self.call_stack.len();
        let top_agrees = match &self.last_function {
            None => n == 0,
            Some(p) => n > 0 && self.call_stack[n - 1] == *p,
        };
        proof {
            if n > 0 {
                assert(string_views(self.call_stack@).last() == self.call_stack@[n - 1]@);
            }
        }
        top_agrees && n <= self.max_depth
    }

    fn on_event(&mut self, event: &SequencedEvent, ctx: &mut AnalysisContext) {
        FunctionTransitions::on_event(self, event, ctx);
    }

    fn findings(&self) -> (r: Vec<Finding>) {
        FunctionTransitions::findings(self)
    }
}

} // verus!
