//! Typed commands from the UI down to the debugger worker.
use vstd::prelude::*;
use crate::bind_core::address::Address;
use crate::bind_core::id::{BreakpointId, FrameId, ThreadId};
use crate::bind_core::model::{AttachSpec, BreakpointLocation};

verus! {

#[derive(Debug, Clone, Copy, PartialEq, Eq, Structural)]
pub enum StepKind {
    /// Source-level step into calls.
    Into,
    /// Source-level step over calls.
    Over,
    /// Run until the current function returns.
    Out,
    /// Single machine instruction.
    Instruction,
}

#[derive(Debug, Clone, PartialEq, Eq)]
pub enum Command {
    Attach(AttachSpec),
    Continue,
    Pause,
    Step(StepKind),
    RunTo(RunTarget),
    Detach,
    Terminate,
    SelectThread(ThreadId),
    SelectFrame(FrameId),
    AddBreakpoint { location: BreakpointLocation, condition: Option<String> },
    RemoveBreakpoint(BreakpointId),
    EnableBreakpoint(BreakpointId, bool),
    /// Read `len` bytes of memory starting at `addr`.
    ReadMemory { addr: Address, len: usize },
    ReadRegisters(Option<ThreadId>),
    Disassemble { around: Option<Address>, count: usize },
    /// Begin recording a trace to the given path (None = in-memory only).
    TraceStart { path: Option<String> },
    TraceStop,
    Shutdown,
}

#[derive(Debug, Clone, PartialEq, Eq)]
pub enum RunTarget {
    Address(Address),
    Source { file: String, line: u32 },
}

} // verus!
