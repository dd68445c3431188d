//! The normalized debugger/tracer backend surface.
//!
//! Backends map native protocol concepts (LLDB, GDB/MI, dbgeng, or future
//! instrumentation) onto the tracer's model types, so higher layers never
//! depend on backend-specific structures.
use vstd::prelude::*;
use crate::tra86::backend::error::BackendError;
use crate::tra86::model::{
    Address, Breakpoint, BreakpointId, BreakpointLocation, DisassemblyLine, FrameState, MemoryRegion, RegisterBank,
    SourceLocation, StopReason, SymbolInfo, TargetBinary, ThreadId, ThreadState,
};

verus! {

#[derive(Debug, Clone)]
pub struct LaunchRequest {
    pub target: TargetBinary,
}

/// A request a backend received, with the answer it gave.
pub enum Request {
    OpenTarget { program: Seq<char>, answer: Result<(), BackendError> },
    Launch { request: LaunchRequest, answer: Result<(), BackendError> },
    Attach { pid: u32, answer: Result<(), BackendError> },
    Detach { answer: Result<(), BackendError> },
    Kill { answer: Result<(), BackendError> },
    Continue { answer: Result<(), BackendError> },
    StepInto { answer: Result<(), BackendError> },
    StepOver { answer: Result<(), BackendError> },
    StepOut { answer: Result<(), BackendError> },
    Pause { answer: Result<(), BackendError> },
    ReadRegisters { thread_id: ThreadId, answer: Result<RegisterBank, BackendError> },
    ReadMemory { address: Address, length: usize, answer: Result<Vec<u8>, BackendError> },
    WriteMemory { address: Address, bytes: Seq<u8>, answer: Result<(), BackendError> },
    ListThreads { answer: Result<Vec<ThreadState>, BackendError> },
    ListFrames { thread_id: ThreadId, answer: Result<Vec<FrameState>, BackendError> },
    SetBreakpoint { location: BreakpointLocation, answer: Result<Breakpoint, BackendError> },
    RemoveBreakpoint { id: BreakpointId, answer: Result<(), BackendError> },
    Disassemble { address: Option<Address>, count: usize, answer: Result<Vec<DisassemblyLine>, BackendError> },
    MemoryMap { answer: Result<Vec<MemoryRegion>, BackendError> },
    CurrentInstruction { thread_id: ThreadId, answer: Result<Option<Address>, BackendError> },
    CurrentStopReason { answer: Result<StopReason, BackendError> },
    SourceLocation { address: Address, answer: Result<Option<SourceLocation>, BackendError> },
    Symbolicate { address: Address, answer: Result<Option<SymbolInfo>, BackendError> },
}

/// A debugger backend. Every request it serves is added, with its answer,
/// to the requests it has received.
pub trait DebugBackend: Send {
    /// The requests received so far, in order, each with its answer.
    spec fn received(&self) -> Seq<Request>;

    /// The name the backend reports itself by.
    spec fn name_view(&self) -> Seq<char>;

    fn backend_name(&self) -> (r: &'static str)
        ensures
            r@ == self.name_view(),
    ;

    fn open_target(&mut self, program: &str) -> (r: Result<(), BackendError>)
        ensures
            final(self).received() == old(self).received().push(Request::OpenTarget { program: program@, answer: r }),
    ;

    fn launch(&mut self, request: LaunchRequest) -> (r: Result<(), BackendError>)
        ensures
            final(self).received() == old(self).received().push(Request::Launch { request, answer: r }),
    ;

    fn attach(&mut self, pid: u32) -> (r: Result<(), BackendError>)
        ensures
            final(self).received() == old(self).received().push(Request::Attach { pid, answer: r }),
    ;

    fn detach(&mut self) -> (r: Result<(), BackendError>)
        ensures
            final(self).received() == old(self).received().push(Request::Detach { answer: r }),
    ;

    fn kill(&mut self) -> (r: Result<(), BackendError>)
        ensures
            final(self).received() == old(self).received().push(Request::Kill { answer: r }),
    ;

    fn continue_exec(&mut self) -> (r: Result<(), BackendError>)
        ensures
            final(self).received() == old(self).received().push(Request::Continue { answer: r }),
    ;

    fn step_into(&mut self) -> (r: Result<(), BackendError>)
        ensures
            final(self).received() == old(self).received().push(Request::StepInto { answer: r }),
    ;

    fn step_over(&mut self) -> (r: Result<(), BackendError>)
        ensures
            final(self).received() == old(self).received().push(Request::StepOver { answer: r }),
    ;

    fn step_out(&mut self) -> (r: Result<(), BackendError>)
        ensures
            final(self).received() == old(self).received().push(Request::StepOut { answer: r }),
    ;

    fn pause(&mut self) -> (r: Result<(), BackendError>)
        ensures
            final(self).received() == old(self).received().push(Request::Pause { answer: r }),
    ;

    fn read_registers(&mut self, thread_id: ThreadId) -> (r: Result<RegisterBank, BackendError>)
        ensures
            final(self).received() == old(self).received().push(Request::ReadRegisters { thread_id, answer: r }),
    ;

    fn read_memory(&mut self, address: Address, length: usize) -> (r: Result<Vec<u8>, BackendError>)
        ensures
            final(self).received() == old(self).received().push(Request::ReadMemory { address, length, answer: r }),
    ;

    fn write_memory(&mut self, address: Address, bytes: &[u8]) -> (r: Result<(), BackendError>)
        ensures
            final(self).received() == old(self).received().push(Request::WriteMemory { address, bytes: bytes@, answer: r }),
    ;

    fn list_threads(&mut self) -> (r: Result<Vec<ThreadState>, BackendError>)
        ensures
            final(self).received() == old(self).received().push(Request::ListThreads { answer: r }),
    ;

    fn list_frames(&mut self, thread_id: ThreadId) -> (r: Result<Vec<FrameState>, BackendError>)
        ensures
            final(self).received() == old(self).received().push(Request::ListFrames { thread_id, answer: r }),
    ;

    fn set_breakpoint(&mut self, location: BreakpointLocation) -> (r: Result<Breakpoint, BackendError>)
        ensures
            final(self).received() == old(self).received().push(Request::SetBreakpoint { location, answer: r }),
    ;

    fn remove_breakpoint(&mut self, id: BreakpointId) -> (r: Result<(), BackendError>)
        ensures
            final(self).received() == old(self).received().push(Request::RemoveBreakpoint { id, answer: r }),
    ;

    fn disassemble(&mut self, address: Option<Address>, count: usize) -> (r: Result<Vec<DisassemblyLine>, BackendError>)
        ensures
            final(self).received() == old(self).received().push(Request::Disassemble { address, count, answer: r }),
    ;

    fn memory_map(&mut self) -> (r: Result<Vec<MemoryRegion>, BackendError>)
        ensures
            final(self).received() == old(self).received().push(Request::MemoryMap { answer: r }),
    ;

    fn current_instruction(&mut self, thread_id: ThreadId) -> (r: Result<Option<Address>, BackendError>)
        ensures
            final(self).received() == old(self).received().push(Request::CurrentInstruction { thread_id, answer: r }),
    ;

    fn current_stop_reason(&mut self) -> (r: Result<StopReason, BackendError>)
        ensures
            final(self).received() == old(self).received().push(Request::CurrentStopReason { answer: r }),
    ;

    fn source_location(&mut self, address: Address) -> (r: Result<Option<SourceLocation>, BackendError>)
        ensures
            final(self).received() == old(self).received().push(Request::SourceLocation { address, answer: r }),
    ;

    fn symbolicate(&mut self, address: Address) -> (r: Result<Option<SymbolInfo>, BackendError>)
        ensures
            final(self).received() == old(self).received().push(Request::Symbolicate { address, answer: r }),
    ;

    /// Named capability flags, ordered by name.
    fn capabilities(&self) -> (r: Vec<(String, bool)>) {
        Vec::new()
    }
}

} // verus!
