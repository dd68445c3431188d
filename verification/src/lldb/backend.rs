//! The LLDB backend: each debugger request goes to the driver process as one
//! protocol request, and the replies update the session state.
use vstd::prelude::*;
use crate::bind_core::address::Address;
use crate::bind_core::capability::Capabilities;
use crate::bind_core::command::{RunTarget, StepKind};
use crate::bind_core::error::BindResult;
use crate::bind_core::event::DebugEvent;
use crate::bind_core::id::{BreakpointId, ThreadId};
use crate::bind_core::model::{
    AttachSpec, Breakpoint, BreakpointLocation, Frame, Instruction, MemoryRegion, Module, ProcessInfo, RegisterSet, ThreadInfo,
};
use crate::debugger::backend::{DebugBackend, Request, opt_text};
use crate::lldb::decode::decode_hex;
use crate::lldb::json::{JsonValue, str_at, u64_at};
use crate::lldb::replies::{disassembly_from, frames_from, modules_from, registers_from, threads_from};
use crate::lldb::requests::{
    breakpoint_request, disassemble_request, empty_request, launch_request, memory_request, run_to_request, step_request,
    str_request, u64_request,
};
use crate::lldb::session::{LldbState, core_files_refused, lldb_capabilities, pause_refused};

verus! {

/// The connection to the LLDB driver process: one request out, its reply's
/// result back.
pub trait DriverTransport {
    fn request(&mut self, op: &str, params: JsonValue) -> BindResult<JsonValue>;
}

/// A backend driving LLDB through `client`.
pub struct LldbBackend<T: DriverTransport> {
    client: T,
    state: LldbState,
    requests: Ghost<Seq<Request>>,
}

impl<T: DriverTransport> LldbBackend<T> {
    pub fn new(client: T) -> (r: Self)
        ensures
            r.received().len() == 0,
    {
        LldbBackend { client, state: LldbState::new(), requests: Ghost(Seq::empty()) }
    }

    /// The driver connection.
    pub fn client_mut(&mut self) -> &mut T {
        &mut self.client
    }

    fn attach_inner(&mut self, spec: &AttachSpec) -> BindResult<()> {
        match spec {
            AttachSpec::Launch(target) => {
                let opened = self.client.request("open_target", str_request("program", target.program.as_str()))?;
                self.state.target_opened(target.program.as_str(), &opened);
                let stop = self.client.request("launch", launch_request(target))?;
                let pid = match self.client.request("process_info", empty_request()) {
                    Ok(v) => u64_at(&v, "pid"),
                    Err(_) => None,
                };
                self.state.launched(pid, &stop);
                Ok(())
            },
            AttachSpec::Pid(pid) => {
                let stop = self.client.request("attach", u64_request("pid", pid.0 as u64))?;
                self.state.attached(*pid, &stop);
                Ok(())
            },
            AttachSpec::CoreFile { .. } => Err(core_files_refused()),
        }
    }

    fn detach_inner(&mut self) -> BindResult<()> {
        self.client.request("detach", empty_request())?;
        self.state.detached();
        Ok(())
    }

    fn terminate_inner(&mut self) -> BindResult<()> {
        self.client.request("kill", empty_request())?;
        self.state.terminated();
        Ok(())
    }

    fn resume_inner(&mut self) -> BindResult<()> {
        self.state.resuming();
        let stop = self.client.request("resume", empty_request())?;
        self.state.emit_stop(&stop, None);
        Ok(())
    }

    fn step_inner(&mut self, kind: StepKind) -> BindResult<()> {
        let from = self.state.last_pc;
        let stop = self.client.request("step", step_request(kind))?;
        self.state.emit_stop(&stop, from);
        Ok(())
    }

    fn run_to_inner(&mut self, target: &RunTarget) -> BindResult<()> {
        let bp = self.client.request("add_breakpoint", run_to_request(target))?;
        let bp_id = match u64_at(&bp, "id") {
            Some(n) => n,
            None => 0,
        };
        self.state.resuming();
        let stop = self.client.request("resume", empty_request())?;
        let _ = self.client.request("remove_breakpoint", u64_request("id", bp_id));
        self.state.emit_stop(&stop, None);
        Ok(())
    }

    fn add_breakpoint_inner(&mut self, location: &BreakpointLocation, condition: Option<&str>) -> BindResult<Breakpoint> {
        let resp = self.client.request("add_breakpoint", breakpoint_request(location, condition))?;
        Ok(self.state.breakpoint_added(location, condition, &resp))
    }

    fn remove_breakpoint_inner(&mut self, id: BreakpointId) -> BindResult<()> {
        self.client.request("remove_breakpoint", u64_request("id", id.0))?;
        self.state.breakpoint_removed(id);
        Ok(())
    }

    fn breakpoints_inner(&self) -> BindResult<Vec<Breakpoint>> {
        let mut out: Vec<Breakpoint> = Vec::new();
        let mut i: usize = 0;
        while i < self.state.breakpoints.len()
            invariant
                i <= self.state.breakpoints@.len(),
            decreases self.state.breakpoints@.len() - i,
        {
            out.push(self.state.breakpoints[i].dup());
            i = i + 1;
        }
        Ok(out)
    }

    fn process_info_inner(&mut self) -> BindResult<ProcessInfo> {
        let v = self.client.request("process_info", empty_request())?;
        Ok(self.state.process_info_from(&v))
    }

    fn threads_inner(&mut self) -> BindResult<Vec<ThreadInfo>> {
        let v = self.client.request("threads", empty_request())?;
        Ok(threads_from(&v, self.state.selected_thread))
    }

    fn frames_inner(&mut self, thread: ThreadId) -> BindResult<Vec<Frame>> {
        let v = self.client.request("frames", u64_request("thread", thread.0))?;
        Ok(frames_from(&v, thread))
    }

    fn registers_inner(&mut self, thread: ThreadId) -> BindResult<RegisterSet> {
        let v = self.client.request("registers", u64_request("thread", thread.0))?;
        Ok(registers_from(&v, self.state.arch, thread))
    }

    fn read_memory_inner(&mut self, addr: Address, len: usize) -> BindResult<Vec<u8>> {
        let v = self.client.request("read_memory", memory_request(addr, len))?;
        let hex = match str_at(&v, "hex") {
            Some(h) => h,
            None => String::new(),
        };
        Ok(decode_hex(hex.as_str()))
    }

    fn disassemble_inner(&mut self, around: Option<Address>, count: usize) -> BindResult<Vec<Instruction>> {
        let v = self.client.request("disassemble", disassemble_request(around, count))?;
        Ok(disassembly_from(&v, self.state.last_pc, &self.state.breakpoints))
    }

    fn modules_inner(&mut self) -> BindResult<Vec<Module>> {
        let v = self.client.request("modules", empty_request())?;
        Ok(modules_from(&v))
    }
}

impl<T: DriverTransport> DebugBackend for LldbBackend<T> {
    closed spec fn received(&self) -> Seq<Request> {
        self.requests@
    }

    open spec fn inv(&self) -> bool {
        true
    }

    open spec fn name_view(&self) -> Seq<char> {
        "lldb"@
    }

    fn name(&self) -> (r: &'static str) {
        "lldb"
    }

    fn capabilities(&self) -> Capabilities {
        lldb_capabilities()
    }

    fn attach(&mut self, spec: &AttachSpec) -> (r: BindResult<()>) {
        let ghost q = self.requests@;
        let r = self.attach_inner(spec);
        self.requests = Ghost(q.push(Request::Attach { spec: *spec, answer: r }));
        r
    }

    fn detach(&mut self) -> (r: BindResult<()>) {
        let ghost q = self.requests@;
        let r = self.detach_inner();
        self.requests = Ghost(q.push(Request::Detach { answer: r }));
        r
    }

    fn terminate(&mut self) -> (r: BindResult<()>) {
        let ghost q = self.requests@;
        let r = self.terminate_inner();
        self.requests = Ghost(q.push(Request::Terminate { answer: r }));
        r
    }

    fn resume(&mut self) -> (r: BindResult<()>) {
        let ghost q = self.requests@;
        let r = self.resume_inner();
        self.requests = Ghost(q.push(Request::Resume { answer: r }));
        r
    }

    /// The driver cannot interrupt a running process.
    fn pause(&mut self) -> (r: BindResult<()>) {
        let r = Err(pause_refused());
        self.requests = Ghost(self.requests@.push(Request::Pause { answer: r }));
        r
    }

    fn step(&mut self, kind: StepKind) -> (r: BindResult<()>) {
        let ghost q = self.requests@;
        let r = self.step_inner(kind);
        self.requests = Ghost(q.push(Request::Step { kind, answer: r }));
        r
    }

    fn run_to(&mut self, target: &RunTarget) -> (r: BindResult<()>) {
        let ghost q = self.requests@;
        let r = self.run_to_inner(target);
        self.requests = Ghost(q.push(Request::RunTo { target: *target, answer: r }));
        r
    }

    fn select_thread(&mut self, thread: ThreadId) -> (r: BindResult<()>) {
        self.state.selected_thread = Some(thread);
        let r = Ok(());
        self.requests = Ghost(self.requests@.push(Request::SelectThread { thread, answer: r }));
        r
    }

    fn select_frame(&mut self, frame_index: usize) -> (r: BindResult<()>) {
        let r = Ok(());
        self.requests = Ghost(self.requests@.push(Request::SelectFrame { frame_index, answer: r }));
        r
    }

    fn add_breakpoint(&mut self, location: &BreakpointLocation, condition: Option<&str>) -> (r: BindResult<Breakpoint>) {
        let ghost q = self.requests@;
        let r = self.add_breakpoint_inner(location, condition);
        self.requests = Ghost(
            q.push(Request::AddBreakpoint { location: *location, condition: opt_text(condition), answer: r }),
        );
        r
    }

    fn remove_breakpoint(&mut self, id: BreakpointId) -> (r: BindResult<()>) {
        let ghost q = self.requests@;
        let r = self.remove_breakpoint_inner(id);
        self.requests = Ghost(q.push(Request::RemoveBreakpoint { id, answer: r }));
        r
    }

    fn enable_breakpoint(&mut self, id: BreakpointId, enabled: bool) -> (r: BindResult<()>) {
        let ghost q = self.requests@;
        let r = self.state.enable_breakpoint(id, enabled);
        self.requests = Ghost(q.push(Request::EnableBreakpoint { id, enabled, answer: r }));
        r
    }

    fn breakpoints(&mut self) -> (r: BindResult<Vec<Breakpoint>>) {
        let r = self.breakpoints_inner();
        self.requests = Ghost(self.requests@.push(Request::Breakpoints { answer: r }));
        r
    }

    fn process_info(&mut self) -> (r: BindResult<ProcessInfo>) {
        let ghost q = self.requests@;
        let r = self.process_info_inner();
        self.requests = Ghost(q.push(Request::ProcessInfo { answer: r }));
        r
    }

    fn threads(&mut self) -> (r: BindResult<Vec<ThreadInfo>>) {
        let ghost q = self.requests@;
        let r = self.threads_inner();
        self.requests = Ghost(q.push(Request::Threads { answer: r }));
        r
    }

    fn frames(&mut self, thread: ThreadId) -> (r: BindResult<Vec<Frame>>) {
        let ghost q = self.requests@;
        let r = self.frames_inner(thread);
        self.requests = Ghost(q.push(Request::Frames { thread, answer: r }));
        r
    }

    fn registers(&mut self, thread: ThreadId) -> (r: BindResult<RegisterSet>) {
        let ghost q = self.requests@;
        let r = self.registers_inner(thread);
        self.requests = Ghost(q.push(Request::Registers { thread, answer: r }));
        r
    }

    fn read_memory(&mut self, addr: Address, len: usize) -> (r: BindResult<Vec<u8>>) {
        let ghost q = self.requests@;
        let r = self.read_memory_inner(addr, len);
        self.requests = Ghost(q.push(Request::ReadMemory { addr, len, answer: r }));
        r
    }

    fn disassemble(&mut self, around: Option<Address>, count: usize) -> (r: BindResult<Vec<Instruction>>) {
        let ghost q = self.requests@;
        let r = self.disassemble_inner(around, count);
        self.requests = Ghost(q.push(Request::Disassemble { around, count, answer: r }));
        r
    }

    fn modules(&mut self) -> (r: BindResult<Vec<Module>>) {
        let ghost q = self.requests@;
        let r = self.modules_inner();
        self.requests = Ghost(q.push(Request::Modules { answer: r }));
        r
    }

    /// The driver reports no memory map.
    fn memory_regions(&mut self) -> (r: BindResult<Vec<MemoryRegion>>) {
        let r = Ok(Vec::new());
        self.requests = Ghost(self.requests@.push(Request::MemoryRegions { answer: r }));
        r
    }

    fn poll_events(&mut self) -> (r: Vec<DebugEvent>) {
        let ghost q = self.requests@;
        let r = self.state.take_events();
        self.requests = Ghost(q.push(Request::PollEvents { answer: r }));
        r
    }
}

} // verus!
