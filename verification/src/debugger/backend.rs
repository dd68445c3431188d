//! The backend contract.
//!
//! A backend is synchronous; asynchronously arriving notifications (process
//! stopped, thread created, module loaded, ...) are buffered and handed out by
//! `poll_events`, which must never block.
use vstd::prelude::*;
use crate::bind_core::address::Address;
use crate::bind_core::capability::Capabilities;
use crate::bind_core::command::{RunTarget, StepKind};
use crate::bind_core::error::BindResult;
use crate::bind_core::event::DebugEvent;
use crate::bind_core::id::{BreakpointId, ThreadId};
use crate::bind_core::model::{AttachSpec, Breakpoint, BreakpointLocation, Frame, Instruction, MemoryRegion, Module, ProcessInfo, RegisterSet, ThreadInfo};

verus! {

/// A request a backend received, with the answer it gave.
pub enum Request {
    Attach { spec: AttachSpec, answer: BindResult<()> },
    Detach { answer: BindResult<()> },
    Terminate { answer: BindResult<()> },
    Resume { answer: BindResult<()> },
    Pause { answer: BindResult<()> },
    Step { kind: StepKind, answer: BindResult<()> },
    RunTo { target: RunTarget, answer: BindResult<()> },
    SelectThread { thread: ThreadId, answer: BindResult<()> },
    SelectFrame { frame_index: usize, answer: BindResult<()> },
    AddBreakpoint { location: BreakpointLocation, condition: Option<Seq<char>>, answer: BindResult<Breakpoint> },
    RemoveBreakpoint { id: BreakpointId, answer: BindResult<()> },
    EnableBreakpoint { id: BreakpointId, enabled: bool, answer: BindResult<()> },
    Breakpoints { answer: BindResult<Vec<Breakpoint>> },
    ProcessInfo { answer: BindResult<ProcessInfo> },
    Threads { answer: BindResult<Vec<ThreadInfo>> },
    Frames { thread: ThreadId, answer: BindResult<Vec<Frame>> },
    Registers { thread: ThreadId, answer: BindResult<RegisterSet> },
    ReadMemory { addr: Address, len: usize, answer: BindResult<Vec<u8>> },
    Disassemble { around: Option<Address>, count: usize, answer: BindResult<Vec<Instruction>> },
    Modules { answer: BindResult<Vec<Module>> },
    MemoryRegions { answer: BindResult<Vec<MemoryRegion>> },
    PollEvents { answer: Vec<DebugEvent> },
}

/// The text of an optional condition.
pub open spec fn opt_text(c: Option<&str>) -> Option<Seq<char>> {
    match c {
        Some(s) => Some(s@),
        None => None,
    }
}

/// A debugger backend. Every request it serves is added, with its answer,
/// to the requests it has received.
pub trait DebugBackend {
    /// The requests received so far, in order, each with its answer.
    spec fn received(&self) -> Seq<Request>;

    /// The backend's own consistency condition, kept by every operation.
    spec fn inv(&self) -> bool;

    /// The name this backend goes by.
    spec fn name_view(&self) -> Seq<char>;

    fn name(&self) -> (r: &'static str)
        ensures
            r@ == self.name_view(),
    ;

    fn capabilities(&self) -> Capabilities;

    fn attach(&mut self, spec: &AttachSpec) -> (r: BindResult<()>)
        requires
            old(self).inv(),
        ensures
            final(self).inv(),
            final(self).received() == old(self).received().push(Request::Attach { spec: *spec, answer: r }),
    ;

    fn detach(&mut self) -> (r: BindResult<()>)
        requires
            old(self).inv(),
        ensures
            final(self).inv(),
            final(self).received() == old(self).received().push(Request::Detach { answer: r }),
    ;

    fn terminate(&mut self) -> (r: BindResult<()>)
        requires
            old(self).inv(),
        ensures
            final(self).inv(),
            final(self).received() == old(self).received().push(Request::Terminate { answer: r }),
    ;

    fn resume(&mut self) -> (r: BindResult<()>)
        requires
            old(self).inv(),
        ensures
            final(self).inv(),
            final(self).received() == old(self).received().push(Request::Resume { answer: r }),
    ;

    fn pause(&mut self) -> (r: BindResult<()>)
        requires
            old(self).inv(),
        ensures
            final(self).inv(),
            final(self).received() == old(self).received().push(Request::Pause { answer: r }),
    ;

    fn step(&mut self, kind: StepKind) -> (r: BindResult<()>)
        requires
            old(self).inv(),
        ensures
            final(self).inv(),
            final(self).received() == old(self).received().push(Request::Step { kind, answer: r }),
    ;

    fn run_to(&mut self, target: &RunTarget) -> (r: BindResult<()>)
        requires
            old(self).inv(),
        ensures
            final(self).inv(),
            final(self).received() == old(self).received().push(Request::RunTo { target: *target, answer: r }),
    ;

    fn select_thread(&mut self, thread: ThreadId) -> (r: BindResult<()>)
        requires
            old(self).inv(),
        ensures
            final(self).inv(),
            final(self).received() == old(self).received().push(Request::SelectThread { thread, answer: r }),
    ;

    fn select_frame(&mut self, frame_index: usize) -> (r: BindResult<()>)
        requires
            old(self).inv(),
        ensures
            final(self).inv(),
            final(self).received() == old(self).received().push(Request::SelectFrame { frame_index, answer: r }),
    ;

    fn add_breakpoint(&mut self, location: &BreakpointLocation, condition: Option<&str>) -> (r: BindResult<Breakpoint>)
        requires
            old(self).inv(),
        ensures
            final(self).inv(),
            final(self).received() == old(self).received().push(Request::AddBreakpoint { location: *location, condition: opt_text(condition), answer: r }),
    ;

    fn remove_breakpoint(&mut self, id: BreakpointId) -> (r: BindResult<()>)
        requires
            old(self).inv(),
        ensures
            final(self).inv(),
            final(self).received() == old(self).received().push(Request::RemoveBreakpoint { id, answer: r }),
    ;

    fn enable_breakpoint(&mut self, id: BreakpointId, enabled: bool) -> (r: BindResult<()>)
        requires
            old(self).inv(),
        ensures
            final(self).inv(),
            final(self).received() == old(self).received().push(Request::EnableBreakpoint { id, enabled, answer: r }),
    ;

    fn breakpoints(&mut self) -> (r: BindResult<Vec<Breakpoint>>)
        requires
            old(self).inv(),
        ensures
            final(self).inv(),
            final(self).received() == old(self).received().push(Request::Breakpoints { answer: r }),
    ;

    fn process_info(&mut self) -> (r: BindResult<ProcessInfo>)
        requires
            old(self).inv(),
        ensures
            final(self).inv(),
            final(self).received() == old(self).received().push(Request::ProcessInfo { answer: r }),
    ;

    fn threads(&mut self) -> (r: BindResult<Vec<ThreadInfo>>)
        requires
            old(self).inv(),
        ensures
            final(self).inv(),
            final(self).received() == old(self).received().push(Request::Threads { answer: r }),
    ;

    fn frames(&mut self, thread: ThreadId) -> (r: BindResult<Vec<Frame>>)
        requires
            old(self).inv(),
        ensures
            final(self).inv(),
            final(self).received() == old(self).received().push(Request::Frames { thread, answer: r }),
    ;

    fn registers(&mut self, thread: ThreadId) -> (r: BindResult<RegisterSet>)
        requires
            old(self).inv(),
        ensures
            final(self).inv(),
            final(self).received() == old(self).received().push(Request::Registers { thread, answer: r }),
    ;

    fn read_memory(&mut self, addr: Address, len: usize) -> (r: BindResult<Vec<u8>>)
        requires
            old(self).inv(),
        ensures
            final(self).inv(),
            final(self).received() == old(self).received().push(Request::ReadMemory { addr, len, answer: r }),
    ;

    fn disassemble(&mut self, around: Option<Address>, count: usize) -> (r: BindResult<Vec<Instruction>>)
        requires
            old(self).inv(),
        ensures
            final(self).inv(),
            final(self).received() == old(self).received().push(Request::Disassemble { around, count, answer: r }),
    ;

    fn modules(&mut self) -> (r: BindResult<Vec<Module>>)
        requires
            old(self).inv(),
        ensures
            final(self).inv(),
            final(self).received() == old(self).received().push(Request::Modules { answer: r }),
    ;

    fn memory_regions(&mut self) -> (r: BindResult<Vec<MemoryRegion>>)
        requires
            old(self).inv(),
        ensures
            final(self).inv(),
            final(self).received() == old(self).received().push(Request::MemoryRegions { answer: r }),
    ;

    /// Non-blocking drain of the events accumulated since the last call.
    fn poll_events(&mut self) -> (r: Vec<DebugEvent>)
        requires
            old(self).inv(),
        ensures
            final(self).inv(),
            final(self).received() == old(self).received().push(Request::PollEvents { answer: r }),
    ;
}

} // verus!
