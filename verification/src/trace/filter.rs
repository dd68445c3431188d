//! Selective trace filters: an event is kept when it passes every active test.
use vstd::prelude::*;
use crate::bind_core::address::{Address, AddressRange, in_range};
use crate::bind_core::event::{DebugEvent, SequencedEvent, event_kind, event_thread};
use crate::bind_core::id::ThreadId;
use crate::text::{chars_eq, chars_of};

verus! {

#[derive(Debug, Clone, Default)]
pub struct TraceFilter {
    /// If non-empty, only these event kinds are accepted.
    pub kinds: Vec<String>,
    /// If set, only events on this thread (events without a thread pass).
    pub thread: Option<ThreadId>,
    /// If set, only events whose address falls in this range pass.
    pub address_range: Option<AddressRange>,
}

/// The address a filter tests for an event, if it carries one.
pub open spec fn event_address_of(e: DebugEvent) -> Option<Address> {
    match e {
        DebugEvent::Stopped { pc, .. } => pc,
        DebugEvent::InstructionStepped { to, .. } => Some(to),
        DebugEvent::BreakpointResolved { address, .. } => Some(address),
        _ => None,
    }
}

pub open spec fn kind_listed(kinds: Seq<String>, k: Seq<char>) -> bool {
    exists|i: int| 0 <= i < kinds.len() && kinds[i]@ == k
}

/// Whether a filter keeps an event.
pub open spec fn accepts_spec(f: TraceFilter, e: DebugEvent) -> bool {
    &&& (f.kinds@.len() == 0 || kind_listed(f.kinds@, event_kind(e)))
    &&& match (f.thread, event_thread(e)) {
        (Some(want), Some(t)) => t == want,
        _ => true,
    }
    &&& match (f.address_range, event_address_of(e)) {
        (Some(r), Some(a)) => in_range(r, a.0),
        _ => true,
    }
}

impl TraceFilter {
    pub fn accept_all() -> (f: TraceFilter)
        ensures
            f.kinds@.len() == 0,
            f.thread is None,
            f.address_range is None,
    {
        TraceFilter { kinds: Vec::new(), thread: None, address_range: None }
    }

    /// Restricts the filter to the given event kinds.
    pub fn with_kinds(self, kinds: &[&str]) -> (f: TraceFilter)
        ensures
            f.kinds@.len() == kinds@.len(),
            forall|i: int| 0 <= i < kinds@.len() ==> f.kinds@[i]@ == kinds@[i]@,
            f.thread == self.thread,
            f.address_range == self.address_range,
    {
        let mut out: Vec<String> = Vec::new();
        let mut i: usize = 0;
        while i < kinds.len()
            invariant
                i <= kinds@.len(),
                out@.len() == i,
                forall|j: int| 0 <= j < i ==> out@[j]@ == kinds@[j]@,
            decreases kinds@.len() - i,
        {
            out.push(kinds[i].to_owned());
            i = i + 1;
        }
        TraceFilter { kinds: out, thread: self.thread, address_range: self.address_range }
    }

    pub fn with_thread(self, thread: ThreadId) -> (f: TraceFilter)
        ensures
            f.kinds == self.kinds,
            f.thread == Some(thread),
            f.address_range == self.address_range,
    {
        TraceFilter { kinds: self.kinds, thread: Some(thread), address_range: self.address_range }
    }

    pub fn with_range(self, range: AddressRange) -> (f: TraceFilter)
        ensures
            f.kinds == self.kinds,
            f.thread == self.thread,
            f.address_range == Some(range),
    {
        TraceFilter { kinds: self.kinds, thread: self.thread, address_range: Some(range) }
    }

    pub fn is_empty(&self) -> (b: bool)
        ensures
            b == (self.kinds@.len() == 0 && self.thread is None && self.address_range is None),
    {
        self.kinds.len() == 0 && self.thread.is_none() && self.address_range.is_none()
    }

    fn event_address(event: &DebugEvent) -> (a: Option<Address>)
        ensures
            a == event_address_of(*event),
    {
        match event {
            DebugEvent::Stopped { pc, .. } => *pc,
            DebugEvent::InstructionStepped { to, .. } => Some(*to),
            DebugEvent::BreakpointResolved { address, .. } => Some(*address),
            _ => None,
        }
    }

    fn kind_matches(&self, kind: &str) -> (b: bool)
        ensures
            b == kind_listed(self.kinds@, kind@),
    {
        let k = chars_of(kind);
        let mut i: usize = 0;
        while i < self.kinds.len()
            invariant
                i <= self.kinds@.len(),
                k@ == kind@,
                forall|j: int| 0 <= j < i ==> self.kinds@[j]@ != kind@,
            decreases self.kinds@.len() - i,
        {
            let c = chars_of(self.kinds[i].as_str());
            if chars_eq(c.as_slice(), k.as_slice()) {
                return true;
            }
            i = i + 1;
        }
        false
    }

    /// Whether the filter keeps `ev`.
    pub fn accepts(&self, ev: &SequencedEvent) -> (b: bool)
        ensures
            b == accepts_spec(*self, ev.event),
    {
        if self.kinds.len() > 0 && !self.kind_matches(ev.event.kind()) {
            return false;
        }
        if let Some(want) = self.thread {
            if let Some(t) = ev.event.thread() {
                if t != want {
                    return false;
                }
            }
        }
        if let Some(range) = self.address_range {
            if let Some(addr) = Self::event_address(&ev.event) {
                if !range.contains(addr) {
                    return false;
                }
            }
        }
        true
    }
}

/// The empty filter keeps every event.
pub proof fn lemma_accept_all_keeps_everything(f: TraceFilter, e: DebugEvent)
    requires
        f.kinds@.len() == 0,
        f.thread is None,
        f.address_range is None,
    ensures
        accepts_spec(f, e),
{
}

/// With only an address range set, a single step is kept exactly when the
/// range holds the address it landed on (`to`), whatever it came from; a
/// stop is kept when its pc lies in the range or it has none; a resolved
/// breakpoint when its address lies in the range; every other event is kept.
pub proof fn lemma_range_filter(f: TraceFilter, e: DebugEvent)
    requires
        f.kinds@.len() == 0,
        f.thread is None,
        f.address_range is Some,
    ensures
        ({
            let r = f.address_range->0;
            &&& e matches DebugEvent::InstructionStepped { to, .. } ==> (accepts_spec(f, e)
                <==> (r.start.0 <= to.0 && to.0 < r.start.0 + r.len))
            &&& e matches DebugEvent::Stopped { pc: Some(p), .. } ==> (accepts_spec(f, e)
                <==> (r.start.0 <= p.0 && p.0 < r.start.0 + r.len))
            &&& e matches DebugEvent::Stopped { pc: None, .. } ==> accepts_spec(f, e)
            &&& e matches DebugEvent::BreakpointResolved { address, .. } ==> (accepts_spec(f, e)
                <==> (r.start.0 <= address.0 && address.0 < r.start.0 + r.len))
            &&& !(e is InstructionStepped || e is Stopped || e is BreakpointResolved) ==> accepts_spec(f, e)
        }),
{
}

/// With only a thread set, an event is kept exactly when it carries no
/// thread or carries that thread.
pub proof fn lemma_thread_filter(f: TraceFilter, e: DebugEvent)
    requires
        f.kinds@.len() == 0,
        f.thread is Some,
        f.address_range is None,
    ensures
        accepts_spec(f, e) <==> (event_thread(e) is None || event_thread(e) == f.thread),
        e matches DebugEvent::InstructionStepped { thread, .. } ==> (accepts_spec(f, e) <==> Some(thread) == f.thread),
        e matches DebugEvent::Stopped { thread, .. } ==> (accepts_spec(f, e) <==> Some(thread) == f.thread),
{
}

/// With only kinds listed, an event is kept exactly when its kind label is
/// one of them.
pub proof fn lemma_kind_filter(f: TraceFilter, e: DebugEvent)
    requires
        f.kinds@.len() > 0,
        f.thread is None,
        f.address_range is None,
    ensures
        accepts_spec(f, e) <==> exists|i: int| 0 <= i < f.kinds@.len() && f.kinds@[i]@ == event_kind(e),
{
}

} // verus!
