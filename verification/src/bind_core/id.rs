//! Type-distinct identifiers.
use vstd::prelude::*;
use crate::num::{dec_digits, fmt_dec};
use crate::text::string_of;

verus! {

/// Identifies one debugging session (one target under control).
#[derive(Debug, Clone, Copy, PartialEq, Eq, Structural, PartialOrd, Ord, Hash)]
pub struct SessionId(pub u64);

impl SessionId {
    pub fn new(raw: u64) -> (r: SessionId)
        ensures
            r.0 == raw,
    {
        SessionId(raw)
    }

    pub fn raw(self) -> (r: u64)
        ensures
            r == self.0,
    {
        self.0
    }

    /// The decimal rendering of the id.
    pub fn to_display(self) -> (s: String)
        ensures
            s@ == dec_digits(self.0 as nat),
    {
        let v = fmt_dec(self.0);
        string_of(v.as_slice())
    }
}

/// Debugger-assigned thread identity, stable for the thread's lifetime in a session.
#[derive(Debug, Clone, Copy, PartialEq, Eq, Structural, PartialOrd, Ord, Hash)]
pub struct ThreadId(pub u64);

impl ThreadId {
    pub fn new(raw: u64) -> (r: ThreadId)
        ensures
            r.0 == raw,
    {
        ThreadId(raw)
    }

    pub fn raw(self) -> (r: u64)
        ensures
            r == self.0,
    {
        self.0
    }

    /// The decimal rendering of the id.
    pub fn to_display(self) -> (s: String)
        ensures
            s@ == dec_digits(self.0 as nat),
    {
        let v = fmt_dec(self.0);
        string_of(v.as_slice())
    }
}

/// Frame identity within a thread's unwound stack at a given stop.
#[derive(Debug, Clone, Copy, PartialEq, Eq, Structural, PartialOrd, Ord, Hash)]
pub struct FrameId(pub u64);

impl FrameId {
    pub fn new(raw: u64) -> (r: FrameId)
        ensures
            r.0 == raw,
    {
        FrameId(raw)
    }

    pub fn raw(self) -> (r: u64)
        ensures
            r == self.0,
    {
        self.0
    }

    /// The decimal rendering of the id.
    pub fn to_display(self) -> (s: String)
        ensures
            s@ == dec_digits(self.0 as nat),
    {
        let v = fmt_dec(self.0);
        string_of(v.as_slice())
    }
}

/// Breakpoint identity, stable across resolution of multiple locations.
#[derive(Debug, Clone, Copy, PartialEq, Eq, Structural, PartialOrd, Ord, Hash)]
pub struct BreakpointId(pub u64);

impl BreakpointId {
    pub fn new(raw: u64) -> (r: BreakpointId)
        ensures
            r.0 == raw,
    {
        BreakpointId(raw)
    }

    pub fn raw(self) -> (r: u64)
        ensures
            r == self.0,
    {
        self.0
    }

    /// The decimal rendering of the id.
    pub fn to_display(self) -> (s: String)
        ensures
            s@ == dec_digits(self.0 as nat),
    {
        let v = fmt_dec(self.0);
        string_of(v.as_slice())
    }
}

/// Watchpoint identity.
#[derive(Debug, Clone, Copy, PartialEq, Eq, Structural, PartialOrd, Ord, Hash)]
pub struct WatchpointId(pub u64);

impl WatchpointId {
    pub fn new(raw: u64) -> (r: WatchpointId)
        ensures
            r.0 == raw,
    {
        WatchpointId(raw)
    }

    pub fn raw(self) -> (r: u64)
        ensures
            r == self.0,
    {
        self.0
    }

    /// The decimal rendering of the id.
    pub fn to_display(self) -> (s: String)
        ensures
            s@ == dec_digits(self.0 as nat),
    {
        let v = fmt_dec(self.0);
        string_of(v.as_slice())
    }
}

/// Loaded module (executable or shared library) identity.
#[derive(Debug, Clone, Copy, PartialEq, Eq, Structural, PartialOrd, Ord, Hash)]
pub struct ModuleId(pub u64);

impl ModuleId {
    pub fn new(raw: u64) -> (r: ModuleId)
        ensures
            r.0 == raw,
    {
        ModuleId(raw)
    }

    pub fn raw(self) -> (r: u64)
        ensures
            r == self.0,
    {
        self.0
    }

    /// The decimal rendering of the id.
    pub fn to_display(self) -> (s: String)
        ensures
            s@ == dec_digits(self.0 as nat),
    {
        let v = fmt_dec(self.0);
        string_of(v.as_slice())
    }
}

/// Monotonic sequence number of the normalized event stream.
#[derive(Debug, Clone, Copy, PartialEq, Eq, Structural, PartialOrd, Ord, Hash)]
pub struct EventSeq(pub u64);

impl EventSeq {
    pub fn new(raw: u64) -> (r: EventSeq)
        ensures
            r.0 == raw,
    {
        EventSeq(raw)
    }

    pub fn raw(self) -> (r: u64)
        ensures
            r == self.0,
    {
        self.0
    }

    /// The decimal rendering of the id.
    pub fn to_display(self) -> (s: String)
        ensures
            s@ == dec_digits(self.0 as nat),
    {
        let v = fmt_dec(self.0);
        string_of(v.as_slice())
    }
}

impl EventSeq {
    /// The sequence number that precedes any real event.
    pub fn zero() -> (r: EventSeq)
        ensures
            r.0 == 0,
    {
        EventSeq(0)
    }

    /// The next sequence number, saturating at the maximum.
    pub fn next(self) -> (r: EventSeq)
        ensures
            r.0 == if self.0 == u64::MAX {
                u64::MAX
            } else {
                (self.0 + 1) as u64
            },
    {
        EventSeq(self.0.saturating_add(1))
    }
}

/// Operating-system process id.
#[derive(Debug, Clone, Copy, PartialEq, Eq, Structural, PartialOrd, Ord, Hash)]
pub struct Pid(pub u32);

impl Pid {
    pub fn new(raw: u32) -> (r: Pid)
        ensures
            r.0 == raw,
    {
        Pid(raw)
    }

    pub fn raw(self) -> (r: u32)
        ensures
            r == self.0,
    {
        self.0
    }

    pub fn to_display(self) -> (s: String)
        ensures
            s@ == dec_digits(self.0 as nat),
    {
        let v = fmt_dec(self.0 as u64);
        string_of(v.as_slice())
    }
}

} // verus!
