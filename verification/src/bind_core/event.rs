//! The normalized debugger event stream.
use vstd::prelude::*;
use crate::bind_core::address::Address;
use crate::bind_core::arch::Architecture;
use crate::bind_core::id::{BreakpointId, EventSeq, ModuleId, Pid, ThreadId, WatchpointId};
use crate::bind_core::model::{Module, StopReason};

verus! {

/// The kind and payload of a normalized debugger event.
#[derive(Debug, Clone, PartialEq, Eq)]
pub enum DebugEvent {
    TargetLoaded { program: String, arch: Architecture },
    ProcessLaunched { pid: Pid },
    ProcessAttached { pid: Pid },
    ProcessExited { code: i32 },
    ProcessDetached,
    Continued,
    Stopped { thread: ThreadId, reason: StopReason, pc: Option<Address> },
    ThreadCreated { thread: ThreadId },
    ThreadExited { thread: ThreadId },
    BreakpointHit { breakpoint: BreakpointId, thread: ThreadId },
    BreakpointResolved { breakpoint: BreakpointId, address: Address },
    WatchpointHit { watchpoint: WatchpointId, thread: ThreadId },
    SignalReceived { thread: ThreadId, signal: String },
    ModuleLoaded { module: Module },
    ModuleUnloaded { module: ModuleId },
    /// Runtime-generated code became available (JIT).
    JitCodeLoaded { module: Module },
    /// A single-instruction step completed.
    InstructionStepped { thread: ThreadId, from: Option<Address>, to: Address },
    Notice { message: String },
    Error { message: String },
}

/// The thread an event pertains to, if any.
pub open spec fn event_thread(e: DebugEvent) -> Option<ThreadId> {
    match e {
        DebugEvent::Stopped { thread, .. } => Some(thread),
        DebugEvent::ThreadCreated { thread } => Some(thread),
        DebugEvent::ThreadExited { thread } => Some(thread),
        DebugEvent::BreakpointHit { thread, .. } => Some(thread),
        DebugEvent::WatchpointHit { thread, .. } => Some(thread),
        DebugEvent::SignalReceived { thread, .. } => Some(thread),
        DebugEvent::InstructionStepped { thread, .. } => Some(thread),
        _ => None,
    }
}

/// The stable kind label of an event.
pub open spec fn event_kind(e: DebugEvent) -> Seq<char> {
    match e {
        DebugEvent::TargetLoaded { .. } => "target-loaded"@,
        DebugEvent::ProcessLaunched { .. } => "process-launched"@,
        DebugEvent::ProcessAttached { .. } => "process-attached"@,
        DebugEvent::ProcessExited { .. } => "process-exited"@,
        DebugEvent::ProcessDetached => "process-detached"@,
        DebugEvent::Continued => "continued"@,
        DebugEvent::Stopped { .. } => "stopped"@,
        DebugEvent::ThreadCreated { .. } => "thread-created"@,
        DebugEvent::ThreadExited { .. } => "thread-exited"@,
        DebugEvent::BreakpointHit { .. } => "breakpoint-hit"@,
        DebugEvent::BreakpointResolved { .. } => "breakpoint-resolved"@,
        DebugEvent::WatchpointHit { .. } => "watchpoint-hit"@,
        DebugEvent::SignalReceived { .. } => "signal"@,
        DebugEvent::ModuleLoaded { .. } => "module-loaded"@,
        DebugEvent::ModuleUnloaded { .. } => "module-unloaded"@,
        DebugEvent::JitCodeLoaded { .. } => "jit-code-loaded"@,
        DebugEvent::InstructionStepped { .. } => "instruction-stepped"@,
        DebugEvent::Notice { .. } => "notice"@,
        DebugEvent::Error { .. } => "error"@,
    }
}

/// The position of an event's variant in the declaration.
pub open spec fn variant_of(e: DebugEvent) -> u8 {
    match e {
        DebugEvent::TargetLoaded { .. } => 0,
        DebugEvent::ProcessLaunched { .. } => 1,
        DebugEvent::ProcessAttached { .. } => 2,
        DebugEvent::ProcessExited { .. } => 3,
        DebugEvent::ProcessDetached => 4,
        DebugEvent::Continued => 5,
        DebugEvent::Stopped { .. } => 6,
        DebugEvent::ThreadCreated { .. } => 7,
        DebugEvent::ThreadExited { .. } => 8,
        DebugEvent::BreakpointHit { .. } => 9,
        DebugEvent::BreakpointResolved { .. } => 10,
        DebugEvent::WatchpointHit { .. } => 11,
        DebugEvent::SignalReceived { .. } => 12,
        DebugEvent::ModuleLoaded { .. } => 13,
        DebugEvent::ModuleUnloaded { .. } => 14,
        DebugEvent::JitCodeLoaded { .. } => 15,
        DebugEvent::InstructionStepped { .. } => 16,
        DebugEvent::Notice { .. } => 17,
        DebugEvent::Error { .. } => 18,
    }
}

/// Length, first two characters and middle character of a label.
spec fn label_sig(k: Seq<char>) -> (nat, char, char, char) {
    (k.len(), k[0], k[1], k[k.len() as int / 2])
}

spec fn sig_of_variant(i: u8) -> (nat, char, char, char) {
    match i {
        0 => (13nat, 't', 'a', '-'),
        1 => (16nat, 'p', 'r', 'l'),
        2 => (16nat, 'p', 'r', 'a'),
        3 => (14nat, 'p', 'r', '-'),
        4 => (16nat, 'p', 'r', 'd'),
        5 => (9nat, 'c', 'o', 'i'),
        6 => (7nat, 's', 't', 'p'),
        7 => (14nat, 't', 'h', 'c'),
        8 => (13nat, 't', 'h', '-'),
        9 => (14nat, 'b', 'r', 'i'),
        10 => (19nat, 'b', 'r', 't'),
        11 => (14nat, 'w', 'a', 'i'),
        12 => (6nat, 's', 'i', 'n'),
        13 => (13nat, 'm', 'o', '-'),
        14 => (15nat, 'm', 'o', 'u'),
        15 => (15nat, 'j', 'i', 'e'),
        16 => (19nat, 'i', 'n', 'o'),
        17 => (6nat, 'n', 'o', 'i'),
        18 => (5nat, 'e', 'r', 'r'),
        _ => (0nat, ' ', ' ', ' '),
    }
}

proof fn lemma_kind_sig(e: DebugEvent)
    ensures
        label_sig(event_kind(e)) == sig_of_variant(variant_of(e)),
{
    reveal_strlit("target-loaded");
    reveal_strlit("process-launched");
    reveal_strlit("process-attached");
    reveal_strlit("process-exited");
    reveal_strlit("process-detached");
    reveal_strlit("continued");
    reveal_strlit("stopped");
    reveal_strlit("thread-created");
    reveal_strlit("thread-exited");
    reveal_strlit("breakpoint-hit");
    reveal_strlit("breakpoint-resolved");
    reveal_strlit("watchpoint-hit");
    reveal_strlit("signal");
    reveal_strlit("module-loaded");
    reveal_strlit("module-unloaded");
    reveal_strlit("jit-code-loaded");
    reveal_strlit("instruction-stepped");
    reveal_strlit("notice");
    reveal_strlit("error");
}

/// Kind labels tell variants apart: two events get the same label exactly
/// when they are of the same variant.
pub proof fn lemma_event_kind_injective(e1: DebugEvent, e2: DebugEvent)
    ensures
        (event_kind(e1) == event_kind(e2)) <==> (variant_of(e1) == variant_of(e2)),
{
    lemma_kind_sig(e1);
    lemma_kind_sig(e2);
    if variant_of(e1) == variant_of(e2) {
    reveal_strlit("target-loaded");
    reveal_strlit("process-launched");
    reveal_strlit("process-attached");
    reveal_strlit("process-exited");
    reveal_strlit("process-detached");
    reveal_strlit("continued");
    reveal_strlit("stopped");
    reveal_strlit("thread-created");
    reveal_strlit("thread-exited");
    reveal_strlit("breakpoint-hit");
    reveal_strlit("breakpoint-resolved");
    reveal_strlit("watchpoint-hit");
    reveal_strlit("signal");
    reveal_strlit("module-loaded");
    reveal_strlit("module-unloaded");
    reveal_strlit("jit-code-loaded");
    reveal_strlit("instruction-stepped");
    reveal_strlit("notice");
    reveal_strlit("error");
    }
}

impl DebugEvent {
    /// A variant-for-variant copy.
    pub fn dup(&self) -> (r: DebugEvent)
        ensures
            r == *self,
    {
        match self {
            DebugEvent::TargetLoaded { program, arch } => DebugEvent::TargetLoaded {
                program: program.clone(),
                arch: *arch,
            },
            DebugEvent::ProcessLaunched { pid } => DebugEvent::ProcessLaunched { pid: *pid },
            DebugEvent::ProcessAttached { pid } => DebugEvent::ProcessAttached { pid: *pid },
            DebugEvent::ProcessExited { code } => DebugEvent::ProcessExited { code: *code },
            DebugEvent::ProcessDetached => DebugEvent::ProcessDetached,
            DebugEvent::Continued => DebugEvent::Continued,
            DebugEvent::Stopped { thread, reason, pc } => DebugEvent::Stopped {
                thread: *thread,
                reason: reason.dup(),
                pc: *pc,
            },
            DebugEvent::ThreadCreated { thread } => DebugEvent::ThreadCreated { thread: *thread },
            DebugEvent::ThreadExited { thread } => DebugEvent::ThreadExited { thread: *thread },
            DebugEvent::BreakpointHit { breakpoint, thread } => DebugEvent::BreakpointHit {
                breakpoint: *breakpoint,
                thread: *thread,
            },
            DebugEvent::BreakpointResolved { breakpoint, address } =>
                DebugEvent::BreakpointResolved { breakpoint: *breakpoint, address: *address },
            DebugEvent::WatchpointHit { watchpoint, thread } => DebugEvent::WatchpointHit {
                watchpoint: *watchpoint,
                thread: *thread,
            },
            DebugEvent::SignalReceived { thread, signal } => DebugEvent::SignalReceived {
                thread: *thread,
                signal: signal.clone(),
            },
            DebugEvent::ModuleLoaded { module } => DebugEvent::ModuleLoaded { module: module.dup() },
            DebugEvent::ModuleUnloaded { module } => DebugEvent::ModuleUnloaded { module: *module },
            DebugEvent::JitCodeLoaded { module } => DebugEvent::JitCodeLoaded {
                module: module.dup(),
            },
            DebugEvent::InstructionStepped { thread, from, to } => DebugEvent::InstructionStepped {
                thread: *thread,
                from: *from,
                to: *to,
            },
            DebugEvent::Notice { message } => DebugEvent::Notice { message: message.clone() },
            DebugEvent::Error { message } => DebugEvent::Error { message: message.clone() },
        }
    }

    pub fn thread(&self) -> (t: Option<ThreadId>)
        ensures
            t == event_thread(*self),
    {
        match self {
            DebugEvent::Stopped { thread, .. } => Some(*thread),
            DebugEvent::ThreadCreated { thread } => Some(*thread),
            DebugEvent::ThreadExited { thread } => Some(*thread),
            DebugEvent::BreakpointHit { thread, .. } => Some(*thread),
            DebugEvent::WatchpointHit { thread, .. } => Some(*thread),
            DebugEvent::SignalReceived { thread, .. } => Some(*thread),
            DebugEvent::InstructionStepped { thread, .. } => Some(*thread),
            _ => None,
        }
    }

    pub fn kind(&self) -> (k: &'static str)
        ensures
            k@ == event_kind(*self),
    {
        match self {
            DebugEvent::TargetLoaded { .. } => "target-loaded",
            DebugEvent::ProcessLaunched { .. } => "process-launched",
            DebugEvent::ProcessAttached { .. } => "process-attached",
            DebugEvent::ProcessExited { .. } => "process-exited",
            DebugEvent::ProcessDetached => "process-detached",
            DebugEvent::Continued => "continued",
            DebugEvent::Stopped { .. } => "stopped",
            DebugEvent::ThreadCreated { .. } => "thread-created",
            DebugEvent::ThreadExited { .. } => "thread-exited",
            DebugEvent::BreakpointHit { .. } => "breakpoint-hit",
            DebugEvent::BreakpointResolved { .. } => "breakpoint-resolved",
            DebugEvent::WatchpointHit { .. } => "watchpoint-hit",
            DebugEvent::SignalReceived { .. } => "signal",
            DebugEvent::ModuleLoaded { .. } => "module-loaded",
            DebugEvent::ModuleUnloaded { .. } => "module-unloaded",
            DebugEvent::JitCodeLoaded { .. } => "jit-code-loaded",
            DebugEvent::InstructionStepped { .. } => "instruction-stepped",
            DebugEvent::Notice { .. } => "notice",
            DebugEvent::Error { .. } => "error",
        }
    }
}

/// A `DebugEvent` placed in the ordered stream.
#[derive(Debug, Clone, PartialEq, Eq)]
pub struct SequencedEvent {
    pub seq: EventSeq,
    /// Monotonic timestamp in nanoseconds since session start.
    pub mono_nanos: u64,
    /// Wall-clock time, nanoseconds since the Unix epoch, when known.
    pub wall: Option<i64>,
    pub event: DebugEvent,
}

/// The time elapsed since the Unix epoch, as whole seconds and the
/// nanoseconds past them, read with `SystemTime::now().duration_since
/// (UNIX_EPOCH)`; `None` when the clock reads before the epoch. The value is
/// the time, so nothing is claimed of it but that the nanoseconds stay below
/// one second, as `Duration::subsec_nanos` documents.
#[verifier::external_body]
pub(crate) fn epoch_now() -> (t: Option<(u64, u32)>)
    ensures
        t matches Some(p) ==> p.1 < 1_000_000_000,
{
    match std::time::SystemTime::now().duration_since(std::time::UNIX_EPOCH) {
        Ok(d) => Some((d.as_secs(), d.subsec_nanos())),
        Err(_) => None,
    }
}

/// Nanoseconds since the epoch for `secs` seconds and `nanos` more, when
/// that fits an `i64`.
pub fn nanos_since_epoch(secs: u64, nanos: u32) -> (t: Option<i64>)
    ensures
        secs * 1_000_000_000 + nanos <= i64::MAX ==> t == Some((secs * 1_000_000_000 + nanos) as i64),
        secs * 1_000_000_000 + nanos > i64::MAX ==> t is None,
{
    if secs > 9_223_372_036 {
        return None;
    }
    let whole: u64 = secs * 1_000_000_000;
    let total: u64 = whole + nanos as u64;
    if total > 9_223_372_036_854_775_807u64 {
        None
    } else {
        Some(total as i64)
    }
}

/// The current wall-clock time in nanoseconds since the Unix epoch; `None`
/// when the clock reads before the epoch or the value does not fit.
pub fn wall_clock_nanos() -> (t: Option<i64>)
    ensures
        t matches Some(v) ==> v >= 0,
{
    match epoch_now() {
        Some((secs, nanos)) => nanos_since_epoch(secs, nanos),
        None => None,
    }
}

impl SequencedEvent {
    /// A field-for-field copy.
    pub fn dup(&self) -> (r: SequencedEvent)
        ensures
            r == *self,
    {
        SequencedEvent {
            seq: self.seq,
            mono_nanos: self.mono_nanos,
            wall: self.wall,
            event: self.event.dup(),
        }
    }

    /// Stamps an event with its sequence number, monotonic time and the wall clock.
    pub fn new(seq: EventSeq, mono_nanos: u64, event: DebugEvent) -> (s: SequencedEvent)
        ensures
            s.seq == seq,
            s.mono_nanos == mono_nanos,
            s.event == event,
    {
        SequencedEvent { seq, mono_nanos, wall: wall_clock_nanos(), event }
    }

    /// The same event with no wall-clock time (deterministic, for traces and tests).
    pub fn untimed(seq: EventSeq, mono_nanos: u64, event: DebugEvent) -> (s: SequencedEvent)
        ensures
            s.seq == seq,
            s.mono_nanos == mono_nanos,
            s.event == event,
            s.wall is None,
    {
        SequencedEvent { seq, mono_nanos, wall: None, event }
    }
}

} // verus!
