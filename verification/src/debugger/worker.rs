//! What the debugger worker decides: which events call for a fresh
//! snapshot, which thread is selected, and how a snapshot is assembled from
//! the backend. The thread, the channels and the clock live with the caller.
use vstd::prelude::*;
use crate::bind_core::address::Address;
use crate::bind_core::command::{Command, StepKind};
use crate::bind_core::error::{BindError, BindResult};
use crate::bind_core::event::{DebugEvent, SequencedEvent};
use crate::bind_core::id::{EventSeq, SessionId, ThreadId};
use crate::bind_core::capability::Capabilities;
use crate::bind_core::model::{
    AttachSpec, Frame, Instruction, ProcessInfo, ProcessLifecycle, RegisterChange, RegisterSet, ThreadInfo, changes_view, diff_spec,
    same_register_set,
};
use crate::bind_core::snapshot::SessionSnapshot;
use crate::debugger::backend::{DebugBackend, Request, opt_text};
use crate::num::dec_digits;
use crate::text::{chars_of, push_chars, string_of};

verus! {

/// How many instructions of disassembly are fetched around the pc per stop.
pub const DISASM_WINDOW: usize = 24;

/// The stepping command of the given kind.
pub fn step_command(kind: StepKind) -> (c: Command)
    ensures
        c == Command::Step(kind),
{
    Command::Step(kind)
}

/// The register changes of `newer` relative to `older`.
pub fn changes_between(newer: &RegisterSet, older: &RegisterSet) -> (r: Vec<RegisterChange>)
    ensures
        changes_view(r@) == diff_spec(newer.registers@, older.registers@),
{
    newer.diff(older)
}

/// Events after which the observable state changed and a snapshot is due.
pub open spec fn calls_for_snapshot(e: DebugEvent) -> bool {
    match e {
        DebugEvent::Stopped { .. } => true,
        DebugEvent::ProcessExited { .. } => true,
        DebugEvent::ProcessDetached => true,
        DebugEvent::TargetLoaded { .. } => true,
        DebugEvent::ModuleLoaded { .. } => true,
        DebugEvent::JitCodeLoaded { .. } => true,
        DebugEvent::BreakpointResolved { .. } => true,
        _ => false,
    }
}

/// The thread of the last stop among `events`, else `selected`.
pub open spec fn selected_after(selected: Option<ThreadId>, events: Seq<DebugEvent>) -> Option<ThreadId>
    decreases events.len(),
{
    if events.len() == 0 {
        selected
    } else {
        match events.last() {
            DebugEvent::Stopped { thread, .. } => Some(thread),
            _ => selected_after(selected, events.drop_last()),
        }
    }
}

/// Notes a batch of backend events: follows the thread of each stop and says
/// whether any event calls for a fresh snapshot.
pub fn note_events(events: &[DebugEvent], selected: &mut Option<ThreadId>) -> (needs_snapshot: bool)
    ensures
        needs_snapshot == exists|i: int| 0 <= i < events@.len() && calls_for_snapshot(#[trigger] events@[i]),
        *final(selected) == selected_after(*old(selected), events@),
{
    let mut needs = false;
    let mut i: usize = 0;
    while i < events.len()
        invariant
            i <= events@.len(),
            needs == exists|k: int| 0 <= k < i && calls_for_snapshot(#[trigger] events@[k]),
            *selected == selected_after(*old(selected), events@.take(i as int)),
        decreases events@.len() - i,
    {
        proof {
            assert(events@.take(i + 1).drop_last() =~= events@.take(i as int));
            assert(events@.take(i + 1).last() == events@[i as int]);
        }
        match &events[i] {
            DebugEvent::Stopped { thread, .. } => {
                *selected = Some(*thread);
                needs = true;
            },
            DebugEvent::ProcessExited { .. } | DebugEvent::ProcessDetached | DebugEvent::TargetLoaded { .. }
            | DebugEvent::ModuleLoaded { .. } | DebugEvent::JitCodeLoaded { .. }
            | DebugEvent::BreakpointResolved { .. } => {
                needs = true;
            },
            _ => {},
        }
        i = i + 1;
    }
    proof {
        assert(events@.take(events@.len() as int) =~= events@);
    }
    needs
}

/// The program name a snapshot carries for an attach request.
pub open spec fn attach_program_spec(spec: AttachSpec) -> Seq<char> {
    match spec {
        AttachSpec::Launch(t) => t.program@,
        AttachSpec::CoreFile { program, .. } => program@,
        AttachSpec::Pid(pid) => "pid "@ + dec_digits(pid.0 as nat),
    }
}

pub fn attach_program(spec: &AttachSpec) -> (r: String)
    ensures
        r@ == attach_program_spec(*spec),
{
    match spec {
        AttachSpec::Launch(t) => t.program.clone(),
        AttachSpec::CoreFile { program, .. } => program.clone(),
        AttachSpec::Pid(pid) => {
            let mut v = chars_of("pid ");
            let d = pid.to_display();
            let dc = chars_of(d.as_str());
            push_chars(&mut v, dc.as_slice());
            string_of(v.as_slice())
        },
    }
}

fn vec_or_empty<T>(r: BindResult<Vec<T>>) -> (v: Vec<T>)
    ensures
        match r {
            Ok(x) => v@ == x@,
            Err(_) => v@.len() == 0,
        },
{
    match r {
        Ok(x) => x,
        Err(_) => Vec::new(),
    }
}

/// `after` keeps `before` as it was, with more after it.
pub open spec fn grown<A>(before: Seq<A>, after: Seq<A>) -> bool {
    after.len() >= before.len() && after.take(before.len() as int) == before
}

/// `after` is `before` followed by `xs`.
proof fn lemma_grown_by<A>(before: Seq<A>, after: Seq<A>, xs: Seq<A>)
    requires
        after == before + xs,
    ensures
        grown(before, after),
        after.skip(before.len() as int) == xs,
{
    assert(after.take(before.len() as int) =~= before);
    assert(after.skip(before.len() as int) =~= xs);
}

/// `after` is `before` with `x` at its end.
proof fn lemma_grown_one<A>(before: Seq<A>, after: Seq<A>, x: A)
    requires
        after == before.push(x),
    ensures
        grown(before, after),
        after.skip(before.len() as int) == seq![x],
{
    assert(after =~= before + seq![x]);
    lemma_grown_by(before, after, seq![x]);
}

proof fn lemma_grown_refl_seq<A>(a: Seq<A>)
    ensures
        grown(a, a),
        a.skip(a.len() as int) == Seq::<A>::empty(),
{
    lemma_grown_by(a, a, Seq::empty());
    assert(a + Seq::<A>::empty() =~= a);
}

/// `c` is `a` followed by what `b` added and then what `c` added to `b`.
pub proof fn lemma_grown_trans<A>(a: Seq<A>, b: Seq<A>, c: Seq<A>)
    requires
        grown(a, b),
        grown(b, c),
    ensures
        grown(a, c),
        c.skip(a.len() as int) == b.skip(a.len() as int) + c.skip(b.len() as int),
{
    assert(c.take(a.len() as int) =~= c.take(b.len() as int).take(a.len() as int));
    assert(c.take(b.len() as int).skip(a.len() as int) =~= b.skip(a.len() as int));
    assert(c.skip(a.len() as int) =~= c.take(b.len() as int).skip(a.len() as int) + c.skip(b.len() as int));
}

/// What a list answer holds: its items, or nothing when the request failed.
pub open spec fn or_empty<T>(answer: BindResult<Vec<T>>) -> Seq<T> {
    match answer {
        Ok(v) => v@,
        Err(_) => Seq::empty(),
    }
}

/// The error an answer carried, if any.
pub open spec fn err_of<T>(answer: BindResult<T>) -> Option<BindError> {
    match answer {
        Ok(_) => None,
        Err(e) => Some(e),
    }
}

/// The error a request's answer carried, if any.
pub open spec fn failure_of(x: Request) -> Option<BindError> {
    match x {
        Request::Attach { answer, .. } => err_of(answer),
        Request::Detach { answer } => err_of(answer),
        Request::Terminate { answer } => err_of(answer),
        Request::Resume { answer } => err_of(answer),
        Request::Pause { answer } => err_of(answer),
        Request::Step { answer, .. } => err_of(answer),
        Request::RunTo { answer, .. } => err_of(answer),
        Request::SelectThread { answer, .. } => err_of(answer),
        Request::SelectFrame { answer, .. } => err_of(answer),
        Request::AddBreakpoint { answer, .. } => err_of(answer),
        Request::RemoveBreakpoint { answer, .. } => err_of(answer),
        Request::EnableBreakpoint { answer, .. } => err_of(answer),
        Request::Breakpoints { answer } => err_of(answer),
        Request::ProcessInfo { answer } => err_of(answer),
        Request::Threads { answer } => err_of(answer),
        Request::Frames { answer, .. } => err_of(answer),
        Request::Registers { answer, .. } => err_of(answer),
        Request::ReadMemory { answer, .. } => err_of(answer),
        Request::Disassemble { answer, .. } => err_of(answer),
        Request::Modules { answer } => err_of(answer),
        Request::MemoryRegions { answer } => err_of(answer),
        Request::PollEvents { .. } => None,
    }
}

/// The text of an optional string.
pub open spec fn opt_string_text(s: Option<String>) -> Option<Seq<char>> {
    match s {
        Some(t) => Some(t@),
        None => None,
    }
}

/// Whether the command is carried out by the backend; the others belong to
/// the worker or the interface.
pub open spec fn asks_backend(command: Command) -> bool {
    !(command is Shutdown || command is ReadRegisters || command is Disassemble || command is TraceStart
        || command is TraceStop)
}

/// `x` is the request the command makes of the backend, with the command's
/// arguments.
pub open spec fn command_request(command: Command, x: Request) -> bool {
    match command {
        Command::Attach(spec) => x matches Request::Attach { spec: s, .. } && s == spec,
        Command::Continue => x is Resume,
        Command::Pause => x is Pause,
        Command::Step(k) => x matches Request::Step { kind, .. } && kind == k,
        Command::RunTo(t) => x matches Request::RunTo { target, .. } && target == t,
        Command::Detach => x is Detach,
        Command::Terminate => x is Terminate,
        Command::SelectThread(t) => x matches Request::SelectThread { thread, .. } && thread == t,
        Command::SelectFrame(f) => x matches Request::SelectFrame { frame_index, .. } && frame_index == f.0 as usize,
        Command::AddBreakpoint { location, condition } => x matches Request::AddBreakpoint { location: l, condition: c, .. }
            && l == location && c == opt_string_text(condition),
        Command::RemoveBreakpoint(id) => x matches Request::RemoveBreakpoint { id: i, .. } && i == id,
        Command::EnableBreakpoint(id, on) => x matches Request::EnableBreakpoint { id: i, enabled, .. } && i == id
            && enabled == on,
        Command::ReadMemory { addr, len } => x matches Request::ReadMemory { addr: a, len: l, .. } && a == addr && l == len,
        _ => false,
    }
}

/// How a command's outcome follows the answer to its request: the error
/// when it failed, the bytes of a memory read, else done.
pub open spec fn outcome_of(x: Request, r: BindResult<CommandOutcome>) -> bool {
    match failure_of(x) {
        Some(e) => r == Err::<CommandOutcome, BindError>(e),
        None => match x {
            Request::ReadMemory { addr, answer: Ok(bytes), .. } => r matches Ok(CommandOutcome::Memory { addr: a, bytes: b })
                && a == addr && b == bytes,
            _ => r matches Ok(CommandOutcome::Done),
        },
    }
}

/// The requests `xs` a command makes, and its outcome `r`: a backend
/// command makes its one request and follows its answer; the others make
/// none, and `Shutdown` asks the worker to stop.
pub open spec fn handled(command: Command, xs: Seq<Request>, r: BindResult<CommandOutcome>) -> bool {
    if asks_backend(command) {
        xs.len() == 1 && command_request(command, xs[0]) && outcome_of(xs[0], r)
    } else {
        &&& xs.len() == 0
        &&& if command is Shutdown {
            r matches Ok(CommandOutcome::Exit)
        } else {
            r matches Ok(CommandOutcome::Done)
        }
    }
}

/// The updates a command's own outcome sends up: the memory read, or the
/// error, or nothing.
pub open spec fn first_updates(command: Command, xs: Seq<Request>) -> Seq<WorkerUpdate> {
    if !asks_backend(command) || xs.len() == 0 {
        Seq::empty()
    } else {
        match failure_of(xs[0]) {
            Some(e) => seq![WorkerUpdate::CommandError(e)],
            None => match xs[0] {
                Request::ReadMemory { addr, answer: Ok(bytes), .. } => seq![WorkerUpdate::Memory { addr, bytes }],
                _ => Seq::empty(),
            },
        }
    }
}

/// The selected thread after a command: the one it selects, else as before.
pub open spec fn selected_by(command: Command, selected: Option<ThreadId>) -> Option<ThreadId> {
    match command {
        Command::SelectThread(t) => Some(t),
        _ => selected,
    }
}

/// How many requests a command makes of the backend itself.
pub open spec fn own_requests(command: Command) -> int {
    if asks_backend(command) {
        1
    } else {
        0
    }
}

/// The program after a command: the one an attach names, else as before.
pub open spec fn program_after(command: Command, program: Option<Seq<char>>) -> Option<Seq<char>> {
    match command {
        Command::Attach(spec) => Some(attach_program_spec(spec)),
        _ => program,
    }
}

/// What carrying out `command` sends up, from the requests `xs` it made
/// and the worker's state before (`seq`, `program`, `selected`): the update
/// of its own outcome, then what draining the events sends up.
pub open spec fn step_sent(
    command: Command,
    xs: Seq<Request>,
    batch: Seq<WorkerUpdate>,
    seq: u64,
    mono: u64,
    id: SessionId,
    program: Option<Seq<char>>,
    selected: Option<ThreadId>,
) -> bool {
    let k = own_requests(command);
    let first = first_updates(command, xs.take(k));
    &&& xs.len() >= k
    &&& asks_backend(command) ==> command_request(command, xs[0])
    &&& batch.len() >= first.len()
    &&& batch.take(first.len() as int) == first
    &&& pumped(
        batch.skip(first.len() as int),
        xs.skip(k),
        seq,
        mono,
        id,
        program_after(command, program),
        selected_by(command, selected),
    )
}

/// The worker's last event number after `command`, from the requests `xs`.
pub open spec fn seq_after_step(command: Command, xs: Seq<Request>, seq: u64) -> u64 {
    seq_after(seq, polled(xs.skip(own_requests(command))).len())
}

/// The selected thread after `command`, from the requests `xs`.
pub open spec fn selected_after_step(command: Command, xs: Seq<Request>, selected: Option<ThreadId>) -> Option<ThreadId> {
    selected_after(selected_by(command, selected), polled(xs.skip(own_requests(command))))
}

/// The thread a snapshot reads: the selected one, else the first listed.
pub open spec fn snapshot_thread(selected: Option<ThreadId>, threads: Seq<ThreadInfo>) -> Option<ThreadId> {
    match selected {
        Some(t) => Some(t),
        None => if threads.len() > 0 {
            Some(threads[0].id)
        } else {
            None
        },
    }
}

/// The pc of the innermost frame.
pub open spec fn first_pc(frames: Seq<Frame>) -> Option<Address> {
    if frames.len() > 0 {
        Some(frames[0].pc)
    } else {
        None
    }
}

/// The requests `xs` a snapshot makes and what it takes from them: the
/// modules, memory map and breakpoints; with a stopped process the threads,
/// then for the chosen thread its frames and registers and the disassembly
/// around the innermost pc. A failed list is left empty.
pub open spec fn snapshot_read(stopped: bool, selected: Option<ThreadId>, xs: Seq<Request>, snap: SessionSnapshot) -> bool {
    &&& xs.len() >= 3
    &&& xs[0] matches Request::Modules { answer } && snap.modules@ == or_empty(answer)
    &&& xs[1] matches Request::MemoryRegions { answer } && snap.memory_regions@ == or_empty(answer)
    &&& xs[2] matches Request::Breakpoints { answer } && snap.breakpoints@ == or_empty(answer)
    &&& if !stopped {
        xs.len() == 3
    } else {
        &&& xs.len() >= 4
        &&& xs[3] matches Request::Threads { answer } && snap.threads@ == or_empty(answer)
        &&& match snapshot_thread(selected, snap.threads@) {
            None => xs.len() == 4,
            Some(t) => {
                &&& xs.len() == 7
                &&& xs[4] matches Request::Frames { thread, answer } && thread == t && snap.frames@ == or_empty(answer)
                &&& xs[5] matches Request::Registers { thread, answer } && thread == t && snap.registers == match answer {
                    Ok(regs) => Some(regs),
                    Err(_) => None::<RegisterSet>,
                }
                &&& xs[6] matches Request::Disassemble { around, count, answer } && around == first_pc(snap.frames@)
                    && count == DISASM_WINDOW && snap.disassembly@ == or_empty(answer)
            },
        }
    }
}

/// The update a fresh snapshot sends up, from the requests `xs` it made:
/// the error when the process state could not be read, else the snapshot
/// of that state.
pub open spec fn snapshot_update(
    u: WorkerUpdate,
    id: SessionId,
    program: Option<Seq<char>>,
    selected: Option<ThreadId>,
    xs: Seq<Request>,
) -> bool {
    xs.len() >= 1 && match xs[0] {
        Request::ProcessInfo { answer: Err(e) } => xs.len() == 1 && u == WorkerUpdate::CommandError(e),
        Request::ProcessInfo { answer: Ok(p) } => u matches WorkerUpdate::Snapshot(snap) && snap.session == id
            && opt_string_text(snap.program) == program && snap.process == p && snapshot_read(p.lifecycle.stopped(), selected, xs.skip(1), *snap),
        _ => false,
    }
}

/// The events the first of `xs` handed out, when it is the event poll.
pub open spec fn polled(xs: Seq<Request>) -> Seq<DebugEvent> {
    if xs.len() > 0 {
        match xs[0] {
            Request::PollEvents { answer } => answer@,
            _ => Seq::empty(),
        }
    } else {
        Seq::empty()
    }
}

/// What draining the events sends up, from the requests `xs` it made: the
/// polled events, numbered after `seq` and stamped `mono`, then, when one
/// of them changed the observable state, the snapshot update.
pub open spec fn pumped(
    out: Seq<WorkerUpdate>,
    xs: Seq<Request>,
    seq: u64,
    mono: u64,
    id: SessionId,
    program: Option<Seq<char>>,
    selected: Option<ThreadId>,
) -> bool {
    let evs = polled(xs);
    let n = evs.len();
    &&& xs.len() >= 1 && xs[0] is PollEvents
    &&& out.len() >= n
    &&& forwards(out.take(n as int), seq, mono, evs)
    &&& if exists|i: int| 0 <= i < n && calls_for_snapshot(#[trigger] evs[i]) {
        out.len() == n + 1 && snapshot_update(out[n as int], id, program, selected_after(selected, evs), xs.skip(1))
    } else {
        out.len() == n && xs.len() == 1
    }
}

/// The register baseline and changes of a snapshot agree with what was
/// read: `prev` is the baseline before, `next` after.
pub open spec fn registers_followed(snap: SessionSnapshot, prev: Option<RegisterSet>, next: Option<RegisterSet>) -> bool {
    &&& (!snap.process.lifecycle.stopped() || snap.process.lifecycle == ProcessLifecycle::Exited) ==> next is None
    &&& snap.process.lifecycle.stopped() && snap.process.lifecycle != ProcessLifecycle::Exited && snap.registers is Some
        ==> next is Some && same_register_set(next.unwrap(), snap.registers.unwrap())
    &&& snap.registers is None ==> snap.register_changes@.len() == 0
    &&& match (prev, snap.registers) {
        (Some(p), Some(regs)) => if p.thread_id == regs.thread_id {
            changes_view(snap.register_changes@) == diff_spec(regs.registers@, p.registers@)
        } else {
            snap.register_changes@.len() == 0
        },
        _ => snap.register_changes@.len() == 0,
    }
}

/// Assembles a snapshot from the backend. Views that need a stopped process
/// (threads, frames, registers, disassembly around the pc) are filled only
/// when it is stopped; a failed view is left empty. The register baseline
/// `prev` is replaced by the registers read, and cleared when the process is
/// not stopped or has exited. It fails only where the backend cannot report
/// the process state; the rest is `snapshot_with_process`.
pub fn build_snapshot<B: DebugBackend + ?Sized>(
    backend: &mut B,
    id: SessionId,
    program: &Option<String>,
    selected: Option<ThreadId>,
    prev: &mut Option<RegisterSet>,
) -> (r: BindResult<SessionSnapshot>)
    requires
        old(backend).inv(),
    ensures
        final(backend).inv(),
        match r {
            Ok(snap) => {
                &&& snap.session == id
                &&& snap.program == *program
                &&& registers_followed(snap, *old(prev), *final(prev))
            },
            Err(_) => *final(prev) == *old(prev),
        },
        grown(old(backend).received(), final(backend).received()),
        ({
            let xs = final(backend).received().skip(old(backend).received().len() as int);
            xs.len() >= 1 && match xs[0] {
                Request::ProcessInfo { answer: Err(e) } => xs.len() == 1 && r == Err::<SessionSnapshot, BindError>(e),
                Request::ProcessInfo { answer: Ok(p) } => r matches Ok(snap) && snap.process == p && snapshot_read(
                    p.lifecycle.stopped(),
                    selected,
                    xs.skip(1),
                    snap,
                ),
                _ => false,
            }
        }),
{
    let ghost r0 = backend.received();
    let caps = backend.capabilities();
    let name = backend.name();
    let answer = backend.process_info();
    let ghost x = Request::ProcessInfo { answer };
    let ghost r1 = backend.received();
    proof {
        lemma_grown_one(r0, r1, x);
    }
    let process = match answer {
        Ok(p) => p,
        Err(e) => {
            return Err(e);
        },
    };
    let snap = snapshot_with_process(backend, id, name, caps, program, selected, prev, process);
    proof {
        lemma_grown_trans(r0, r1, backend.received());
        assert(backend.received().skip(r0.len() as int).skip(1) =~= backend.received().skip(r1.len() as int));
    }
    Ok(snap)
}

/// The snapshot around the process state `process` that the backend
/// reported, named `name` with capabilities `caps`; the other views are read
/// from the backend as `build_snapshot` says.
/// The views of a stopped process: the threads, then, for the selected
/// thread or else the first listed, its frames and registers and the
/// disassembly around its innermost pc. The register baseline `prev` is
/// replaced by the registers read, and the changes are relative to it when
/// it is of the same thread.
fn read_stopped<B: DebugBackend + ?Sized>(
    backend: &mut B,
    selected: Option<ThreadId>,
    prev: &mut Option<RegisterSet>,
) -> (r: (Vec<ThreadInfo>, Vec<Frame>, Option<RegisterSet>, Vec<RegisterChange>, Vec<Instruction>))
    requires
        old(backend).inv(),
    ensures
        final(backend).inv(),
        grown(old(backend).received(), final(backend).received()),
        ({
            let ys = final(backend).received().skip(old(backend).received().len() as int);
            &&& ys.len() >= 1
            &&& ys[0] matches Request::Threads { answer } && r.0@ == or_empty(answer)
            &&& match snapshot_thread(selected, r.0@) {
                None => ys.len() == 1 && r.1@.len() == 0 && r.2 is None && r.4@.len() == 0,
                Some(t) => {
                    &&& ys.len() == 4
                    &&& ys[1] matches Request::Frames { thread, answer } && thread == t && r.1@ == or_empty(answer)
                    &&& ys[2] matches Request::Registers { thread, answer } && thread == t && r.2 == match answer {
                        Ok(regs) => Some(regs),
                        Err(_) => None::<RegisterSet>,
                    }
                    &&& ys[3] matches Request::Disassemble { around, count, answer } && around == first_pc(r.1@)
                        && count == DISASM_WINDOW && r.4@ == or_empty(answer)
                },
            }
        }),
        r.2 matches Some(regs) ==> *final(prev) matches Some(p) && same_register_set(p, regs),
        r.2 is None ==> *final(prev) == *old(prev),
        r.2 is None ==> r.3@.len() == 0,
        match (*old(prev), r.2) {
            (Some(p), Some(regs)) => if p.thread_id == regs.thread_id {
                changes_view(r.3@) == diff_spec(regs.registers@, p.registers@)
            } else {
                r.3@.len() == 0
            },
            _ => r.3@.len() == 0,
        },
{
    let ghost r0 = backend.received();
    let a_thr = backend.threads();
    let ghost mut ys: Seq<Request> = seq![Request::Threads { answer: a_thr }];
    assert(backend.received() =~= r0 + ys);
    let threads = vec_or_empty(a_thr);
    let thread = match selected {
        Some(t) => Some(t),
        None => if threads.len() > 0 {
            Some(threads[0].id)
        } else {
            None
        },
    };
    let mut frames: Vec<Frame> = Vec::new();
    let mut registers: Option<RegisterSet> = None;
    let mut changes: Vec<RegisterChange> = Vec::new();
    let mut disassembly: Vec<Instruction> = Vec::new();
    match thread {
        Some(thread) => {
            let a_frames = backend.frames(thread);
            proof {
                ys = ys.push(Request::Frames { thread, answer: a_frames });
                assert(backend.received() =~= r0 + ys);
            }
            frames = vec_or_empty(a_frames);
            let a_regs = backend.registers(thread);
            proof {
                ys = ys.push(Request::Registers { thread, answer: a_regs });
                assert(backend.received() =~= r0 + ys);
            }
            match a_regs {
                Ok(regs) => {
                    match prev {
                        Some(p) => {
                            if p.thread_id == regs.thread_id {
                                changes = regs.diff(p);
                            }
                        },
                        None => {},
                    }
                    *prev = Some(regs.dup());
                    registers = Some(regs);
                },
                Err(_) => {},
            }
            let pc: Option<Address> = if frames.len() > 0 {
                Some(frames[0].pc)
            } else {
                None
            };
            let a_dis = backend.disassemble(pc, DISASM_WINDOW);
            proof {
                ys = ys.push(Request::Disassemble { around: pc, count: DISASM_WINDOW, answer: a_dis });
                assert(backend.received() =~= r0 + ys);
            }
            disassembly = vec_or_empty(a_dis);
        },
        None => {},
    }
    proof {
        lemma_grown_by(r0, backend.received(), ys);
    }
    (threads, frames, registers, changes, disassembly)
}

pub fn snapshot_with_process<B: DebugBackend + ?Sized>(
    backend: &mut B,
    id: SessionId,
    name: &str,
    caps: Capabilities,
    program: &Option<String>,
    selected: Option<ThreadId>,
    prev: &mut Option<RegisterSet>,
    process: ProcessInfo,
) -> (snap: SessionSnapshot)
    requires
        old(backend).inv(),
    ensures
        final(backend).inv(),
        snap.session == id,
        snap.backend_name@ == name@,
        snap.capabilities == caps,
        snap.program == *program,
        snap.process == process,
        registers_followed(snap, *old(prev), *final(prev)),
        !process.lifecycle.stopped() ==> snap.threads@.len() == 0 && snap.frames@.len() == 0 && snap.registers is None
            && snap.disassembly@.len() == 0,
        grown(old(backend).received(), final(backend).received()),
        snapshot_read(process.lifecycle.stopped(), selected, final(backend).received().skip(old(backend).received().len() as int), snap),
{
    let ghost r0 = backend.received();
    let stopped = process.lifecycle.is_stopped();
    let exited = process.lifecycle == ProcessLifecycle::Exited;
    let a_mod = backend.modules();
    let a_mem = backend.memory_regions();
    let a_bps = backend.breakpoints();
    let ghost xs: Seq<Request> = seq![
        Request::Modules { answer: a_mod },
        Request::MemoryRegions { answer: a_mem },
        Request::Breakpoints { answer: a_bps },
    ];
    assert(backend.received() =~= r0 + xs);
    let ghost r1 = backend.received();
    proof {
        lemma_grown_by(r0, r1, xs);
    }
    let (threads, frames, registers, changes, disassembly) = if stopped {
        read_stopped(backend, selected, prev)
    } else {
        *prev = None;
        proof {
            lemma_grown_refl_seq(r1);
        }
        (Vec::new(), Vec::new(), None, Vec::new(), Vec::new())
    };
    if exited {
        *prev = None;
    }
    let snap = SessionSnapshot {
        session: id,
        backend_name: name.to_owned(),
        capabilities: caps,
        process,
        program: crate::bind_core::model::dup_opt_string(program),
        threads,
        frames,
        registers,
        register_changes: changes,
        disassembly,
        breakpoints: vec_or_empty(a_bps),
        watchpoints: Vec::new(),
        modules: vec_or_empty(a_mod),
        memory_regions: vec_or_empty(a_mem),
        event_count: 0,
        events_dropped: 0,
    };
    proof {
        lemma_grown_trans(r0, r1, backend.received());
        let all = backend.received().skip(r0.len() as int);
        let ys = backend.received().skip(r1.len() as int);
        assert(all == xs + ys);
        assert(all.skip(3) =~= ys);
        assert(all[0] == xs[0] && all[1] == xs[1] && all[2] == xs[2]);
        assert(all[0] matches Request::Modules { answer } && snap.modules@ == or_empty(answer));
        assert(all[1] matches Request::MemoryRegions { answer } && snap.memory_regions@ == or_empty(answer));
        assert(all[2] matches Request::Breakpoints { answer } && snap.breakpoints@ == or_empty(answer));
        if stopped {
            assert(all[3] == ys[0]);
            if all.len() > 4 {
                assert(all[4] == ys[1] && all[5] == ys[2] && all[6] == ys[3]);
            }
        }
        assert(snapshot_read(stopped, selected, all, snap));
    }
    snap
}

/// Messages the worker sends up to the interface.
#[derive(Debug, Clone)]
pub enum WorkerUpdate {
    /// A normalized, sequenced event for the timeline, trace and analyses.
    Event(SequencedEvent),
    /// A fresh consistent read model, produced on state changes.
    Snapshot(Box<SessionSnapshot>),
    /// Result of a `ReadMemory` command.
    Memory { addr: Address, bytes: Vec<u8> },
    /// A command failed; surfaced explicitly rather than swallowed.
    CommandError(BindError),
    /// The worker has stopped and will send nothing further.
    Shutdown,
}

/// What a command left for the worker to pass on.
#[derive(Debug)]
pub enum CommandOutcome {
    /// Carried out; nothing to report but the events it caused.
    Done,
    /// The worker is to stop.
    Exit,
    /// Memory that was read.
    Memory { addr: Address, bytes: Vec<u8> },
}

/// Carries out one command on the backend. `program` follows the attach
/// request (set before the backend is asked) and `selected` the thread
/// selection; the trace commands belong to the interface and do nothing
/// here; reading registers or disassembly happens on the next snapshot.
pub fn handle_command<B: DebugBackend + ?Sized>(
    backend: &mut B,
    program: &mut Option<String>,
    selected: &mut Option<ThreadId>,
    command: Command,
) -> (r: BindResult<CommandOutcome>)
    requires
        old(backend).inv(),
    ensures
        final(backend).inv(),
        command is Shutdown ==> r matches Ok(CommandOutcome::Exit),
        r matches Ok(CommandOutcome::Exit) ==> command is Shutdown,
        r matches Ok(CommandOutcome::Memory { addr, .. }) ==> command matches Command::ReadMemory { addr: a, .. } && a == addr,
        command is ReadMemory && r is Ok ==> r matches Ok(CommandOutcome::Memory { .. }),
        match command {
            Command::Attach(spec) => *final(program) matches Some(p) && p@ == attach_program_spec(spec),
            _ => *final(program) == *old(program),
        },
        match command {
            Command::SelectThread(t) => *final(selected) == Some(t),
            _ => *final(selected) == *old(selected),
        },
        match command {
            Command::Shutdown | Command::ReadRegisters(_) | Command::Disassemble { .. } | Command::TraceStart { .. }
            | Command::TraceStop => r matches Ok(CommandOutcome::Done) || r matches Ok(CommandOutcome::Exit),
            _ => true,
        },
        grown(old(backend).received(), final(backend).received()),
        handled(command, final(backend).received().skip(old(backend).received().len() as int), r),
{
    let ghost r0 = backend.received();
    match command {
        Command::Shutdown => {
            proof {
                lemma_grown_by(r0, r0, Seq::empty());
            }
            Ok(CommandOutcome::Exit)
        },
        Command::Attach(spec) => {
            *program = Some(attach_program(&spec));
            let a = backend.attach(&spec);
            proof {
                lemma_grown_one(r0, backend.received(), Request::Attach { spec, answer: a });
            }
            match a {
                Ok(()) => Ok(CommandOutcome::Done),
                Err(e) => Err(e),
            }
        },
        Command::Continue => {
            let a = backend.resume();
            proof {
                lemma_grown_one(r0, backend.received(), Request::Resume { answer: a });
            }
            match a {
                Ok(()) => Ok(CommandOutcome::Done),
                Err(e) => Err(e),
            }
        },
        Command::Pause => {
            let a = backend.pause();
            proof {
                lemma_grown_one(r0, backend.received(), Request::Pause { answer: a });
            }
            match a {
                Ok(()) => Ok(CommandOutcome::Done),
                Err(e) => Err(e),
            }
        },
        Command::Step(kind) => {
            let a = backend.step(kind);
            proof {
                lemma_grown_one(r0, backend.received(), Request::Step { kind, answer: a });
            }
            match a {
                Ok(()) => Ok(CommandOutcome::Done),
                Err(e) => Err(e),
            }
        },
        Command::RunTo(target) => {
            let a = backend.run_to(&target);
            proof {
                lemma_grown_one(r0, backend.received(), Request::RunTo { target, answer: a });
            }
            match a {
                Ok(()) => Ok(CommandOutcome::Done),
                Err(e) => Err(e),
            }
        },
        Command::Detach => {
            let a = backend.detach();
            proof {
                lemma_grown_one(r0, backend.received(), Request::Detach { answer: a });
            }
            match a {
                Ok(()) => Ok(CommandOutcome::Done),
                Err(e) => Err(e),
            }
        },
        Command::Terminate => {
            let a = backend.terminate();
            proof {
                lemma_grown_one(r0, backend.received(), Request::Terminate { answer: a });
            }
            match a {
                Ok(()) => Ok(CommandOutcome::Done),
                Err(e) => Err(e),
            }
        },
        Command::SelectThread(t) => {
            *selected = Some(t);
            let a = backend.select_thread(t);
            proof {
                lemma_grown_one(r0, backend.received(), Request::SelectThread { thread: t, answer: a });
            }
            match a {
                Ok(()) => Ok(CommandOutcome::Done),
                Err(e) => Err(e),
            }
        },
        Command::SelectFrame(f) => {
            let a = backend.select_frame(f.0 as usize);
            proof {
                lemma_grown_one(r0, backend.received(), Request::SelectFrame { frame_index: f.0 as usize, answer: a });
            }
            match a {
                Ok(()) => Ok(CommandOutcome::Done),
                Err(e) => Err(e),
            }
        },
        Command::AddBreakpoint { location, condition } => {
            let cond: Option<&str> = match &condition {
                Some(c) => Some(c.as_str()),
                None => None,
            };
            let a = backend.add_breakpoint(&location, cond);
            proof {
                assert(opt_text(cond) == opt_string_text(condition));
                lemma_grown_one(
                    r0,
                    backend.received(),
                    Request::AddBreakpoint { location, condition: opt_text(cond), answer: a },
                );
            }
            match a {
                Ok(_) => Ok(CommandOutcome::Done),
                Err(e) => Err(e),
            }
        },
        Command::RemoveBreakpoint(id) => {
            let a = backend.remove_breakpoint(id);
            proof {
                lemma_grown_one(r0, backend.received(), Request::RemoveBreakpoint { id, answer: a });
            }
            match a {
                Ok(()) => Ok(CommandOutcome::Done),
                Err(e) => Err(e),
            }
        },
        Command::EnableBreakpoint(id, on) => {
            let a = backend.enable_breakpoint(id, on);
            proof {
                lemma_grown_one(r0, backend.received(), Request::EnableBreakpoint { id, enabled: on, answer: a });
            }
            match a {
                Ok(()) => Ok(CommandOutcome::Done),
                Err(e) => Err(e),
            }
        },
        Command::ReadMemory { addr, len } => {
            let a = backend.read_memory(addr, len);
            proof {
                lemma_grown_one(r0, backend.received(), Request::ReadMemory { addr, len, answer: a });
            }
            match a {
                Ok(bytes) => Ok(CommandOutcome::Memory { addr, bytes }),
                Err(e) => Err(e),
            }
        },
        _ => {
            proof {
                lemma_grown_by(r0, r0, Seq::empty());
            }
            Ok(CommandOutcome::Done)
        },
    }
}

/// The sequence number `k` steps after `s`, stopping at the maximum.
pub open spec fn seq_after(s: u64, k: nat) -> u64 {
    if s + k >= u64::MAX { u64::MAX } else { (s + k) as u64 }
}

/// The updates that forward `events`, numbered after `seq` and stamped with
/// `mono`, in order.
pub open spec fn forwards(out: Seq<WorkerUpdate>, seq: u64, mono: u64, events: Seq<DebugEvent>) -> bool {
    &&& out.len() == events.len()
    &&& forall|i: int| 0 <= i < events.len() ==> forwarded(#[trigger] out[i], seq_after(seq, (i + 1) as nat), mono, events[i])
}

/// An update forwarding `e` as event number `n` stamped `mono`.
pub open spec fn forwarded(u: WorkerUpdate, n: u64, mono: u64, e: DebugEvent) -> bool {
    match u {
        WorkerUpdate::Event(se) => se.seq == EventSeq(n) && se.mono_nanos == mono && se.event == e,
        _ => false,
    }
}

/// A snapshot update for the session and program given.
pub open spec fn snapshot_of(u: WorkerUpdate, id: SessionId, program: Option<String>) -> bool {
    match u {
        WorkerUpdate::Snapshot(snap) => snap.session == id && snap.program == program,
        WorkerUpdate::CommandError(_) => true,
        _ => false,
    }
}

/// A memory update answering a memory read of the same address.
pub open spec fn memory_for(c: Command, u: WorkerUpdate) -> bool {
    match (c, u) {
        (Command::ReadMemory { addr, .. }, WorkerUpdate::Memory { addr: a, .. }) => a == addr,
        _ => false,
    }
}

/// The worker's state between commands: the session, the event numbering,
/// the register baseline, the selected thread and the program.
pub struct WorkerCore {
    id: SessionId,
    seq: EventSeq,
    prev_registers: Option<RegisterSet>,
    selected_thread: Option<ThreadId>,
    program: Option<String>,
    /// Every command carried out so far, in order.
    processed: Ghost<Seq<Command>>,
    /// What each command carried out so far sent up, in order.
    outputs: Ghost<Seq<Seq<WorkerUpdate>>>,
}

impl WorkerCore {
    pub closed spec fn id(&self) -> SessionId {
        self.id
    }

    /// The number of the last event sent up.
    pub closed spec fn seq(&self) -> EventSeq {
        self.seq
    }

    /// The registers of the last snapshot, the baseline for the next.
    pub closed spec fn prev_registers(&self) -> Option<RegisterSet> {
        self.prev_registers
    }

    pub closed spec fn selected_thread(&self) -> Option<ThreadId> {
        self.selected_thread
    }

    /// The program of the last attach request.
    pub closed spec fn program(&self) -> Option<String> {
        self.program
    }

    /// Every command carried out so far, in order.
    pub closed spec fn processed(&self) -> Seq<Command> {
        self.processed@
    }

    /// What each command carried out so far sent up, in order.
    pub closed spec fn outputs(&self) -> Seq<Seq<WorkerUpdate>> {
        self.outputs@
    }

    /// The program of the last attach request.
    pub fn program_name(&self) -> (r: Option<&str>)
        ensures
            opt_string_text(self.program()) == match r {
                Some(t) => Some(t@),
                None => None::<Seq<char>>,
            },
    {
        match &self.program {
            Some(p) => Some(p.as_str()),
            None => None,
        }
    }

    pub fn new(id: SessionId) -> (w: WorkerCore)
        ensures
            w.id() == id,
            w.seq() == EventSeq(0),
            w.prev_registers() is None,
            w.selected_thread() is None,
            w.program() is None,
            w.processed().len() == 0,
            w.outputs().len() == 0,
    {
        WorkerCore {
            id,
            seq: EventSeq(0),
            prev_registers: None,
            selected_thread: None,
            program: None,
            processed: Ghost(Seq::empty()),
            outputs: Ghost(Seq::empty()),
        }
    }

    /// Drains the backend's events into `out`, numbered and stamped with
    /// `mono_nanos`, then a fresh snapshot (or the error building it) when an
    /// event changed the observable state.
    pub fn pump_events<B: DebugBackend + ?Sized>(&mut self, backend: &mut B, mono_nanos: u64, out: &mut Vec<WorkerUpdate>)
        requires
            old(backend).inv(),
        ensures
            final(backend).inv(),
            final(self).id() == old(self).id(),
            final(self).program() == old(self).program(),
            final(self).processed() == old(self).processed(),
            final(self).outputs() == old(self).outputs(),
            grown(old(backend).received(), final(backend).received()),
            grown(old(out)@, final(out)@),
            ({
                let xs = final(backend).received().skip(old(backend).received().len() as int);
                &&& pumped(
                    final(out)@.skip(old(out)@.len() as int),
                    xs,
                    old(self).seq().0,
                    mono_nanos,
                    old(self).id(),
                    opt_string_text(old(self).program()),
                    old(self).selected_thread(),
                )
                &&& final(self).seq().0 == seq_after(old(self).seq().0, polled(xs).len())
                &&& final(self).selected_thread() == selected_after(old(self).selected_thread(), polled(xs))
            }),
    {
        let ghost r0 = backend.received();
        let events = backend.poll_events();
        let ghost evs = events@;
        let ghost r1 = backend.received();
        let ghost px = Request::PollEvents { answer: events };
        proof {
            lemma_grown_one(r0, r1, px);
        }
        let ghost start = out@.len();
        let needs = note_events(events.as_slice(), &mut self.selected_thread);
        let ghost s0 = self.seq.0;
        let mut i: usize = 0;
        while i < events.len()
            invariant
                i <= events@.len(),
                events@ == evs,
                out@.len() == start + i,
                self.seq.0 == seq_after(s0, i as nat),
                forwards(out@.subrange(start as int, (start + i) as int), s0, mono_nanos, evs.take(i as int)),
                out@.take(start as int) == old(out)@,
                start == old(out)@.len(),
                self.id == old(self).id(),
                self.program == old(self).program(),
                self.processed == old(self).processed,
                self.outputs == old(self).outputs,
                self.selected_thread == selected_after(old(self).selected_thread(), evs),
            decreases events@.len() - i,
        {
            self.seq = self.seq.next();
            let ev = SequencedEvent::new(self.seq, mono_nanos, events[i].dup());
            let ghost before = out@;
            out.push(WorkerUpdate::Event(ev));
            proof {
                assert(out@.subrange(start as int, (start + i + 1) as int) =~= before.subrange(start as int, (start + i) as int).push(
                    WorkerUpdate::Event(ev),
                ));
                assert(evs.take(i + 1) =~= evs.take(i as int).push(evs[i as int]));
                assert(out@.take(start as int) =~= before.take(start as int));
            }
            i = i + 1;
        }
        proof {
            assert(evs.take(i as int) =~= evs);
        }
        let ghost mid = out@;
        let ghost n = evs.len();
        if needs {
            match build_snapshot(backend, self.id, &self.program, self.selected_thread, &mut self.prev_registers) {
                Ok(snap) => out.push(WorkerUpdate::Snapshot(Box::new(snap))),
                Err(err) => out.push(WorkerUpdate::CommandError(err)),
            }
            proof {
                assert(out@.subrange(start as int, (start + evs.len()) as int) =~= mid.subrange(start as int, (start + evs.len()) as int));
                assert(out@.take(start as int) =~= mid.take(start as int));
                lemma_grown_trans(r0, r1, backend.received());
                let xs = backend.received().skip(r0.len() as int);
                assert(xs.skip(1) =~= backend.received().skip(r1.len() as int));
                assert(polled(xs) == evs);
                assert(out@.skip(start as int)[n as int] == out@[(start + n) as int]);
            }
        } else {
            proof {
                lemma_grown_refl_seq(r1);
                lemma_grown_trans(r0, r1, r1);
                assert(polled(backend.received().skip(r0.len() as int)) == evs);
            }
        }
        proof {
            assert(out@.skip(start as int).take(n as int) =~= out@.subrange(start as int, (start + n) as int));
            assert(out@.take(start as int) =~= old(out)@);
        }
    }

    /// Carries out one command, then forwards what it caused: the memory
    /// read or the command's error first, then the events. True when the
    /// worker is to stop.
    pub fn process<B: DebugBackend + ?Sized>(&mut self, backend: &mut B, command: Command, mono_nanos: u64) -> (r: (Vec<WorkerUpdate>, bool))
        requires
            old(backend).inv(),
        ensures
            final(backend).inv(),
            r.1 == (command is Shutdown),
            final(self).id() == old(self).id(),
            final(self).processed() == old(self).processed().push(command),
            final(self).outputs() == old(self).outputs().push(r.0@),
            match command {
                Command::Attach(spec) => final(self).program() matches Some(p) && p@ == attach_program_spec(spec),
                _ => final(self).program() == old(self).program(),
            },
            command is ReadMemory ==> r.0@.len() > 0 && (r.0@[0] is CommandError || memory_for(command, r.0@[0])),
            grown(old(backend).received(), final(backend).received()),
            step_sent(
                command,
                final(backend).received().skip(old(backend).received().len() as int),
                r.0@,
                old(self).seq().0,
                mono_nanos,
                old(self).id(),
                opt_string_text(old(self).program()),
                old(self).selected_thread(),
            ),
            final(self).seq().0 == seq_after_step(
                command,
                final(backend).received().skip(old(backend).received().len() as int),
                old(self).seq().0,
            ),
            final(self).selected_thread() == selected_after_step(
                command,
                final(backend).received().skip(old(backend).received().len() as int),
                old(self).selected_thread(),
            ),
            opt_string_text(final(self).program()) == program_after(command, opt_string_text(old(self).program())),
    {
        let mut out: Vec<WorkerUpdate> = Vec::new();
        let is_shutdown = match &command {
            Command::Shutdown => true,
            _ => false,
        };
        let ghost cmd = command;
        let ghost r0 = backend.received();
        let outcome = handle_command(backend, &mut self.program, &mut self.selected_thread, command);
        let ghost r1 = backend.received();
        let ghost hx = r1.skip(r0.len() as int);
        let ghost ho = outcome;
        match outcome {
            Ok(CommandOutcome::Memory { addr, bytes }) => {
                out.push(WorkerUpdate::Memory { addr, bytes });
            },
            Ok(_) => {},
            Err(err) => {
                out.push(WorkerUpdate::CommandError(err));
            },
        }
        proof {
            if asks_backend(cmd) {
                assert(handled(cmd, hx, ho));
                match failure_of(hx[0]) {
                    Some(e) => {
                        assert(out@ =~= seq![WorkerUpdate::CommandError(e)]);
                    },
                    None => {
                        match hx[0] {
                            Request::ReadMemory { addr, answer: Ok(bytes), .. } => {
                                assert(out@ =~= seq![WorkerUpdate::Memory { addr, bytes }]);
                            },
                            _ => {
                                assert(out@ =~= Seq::<WorkerUpdate>::empty());
                            },
                        }
                    },
                }
            } else {
                assert(out@ =~= Seq::<WorkerUpdate>::empty());
            }
            assert(out@ == first_updates(cmd, hx));
        }
        self.processed = Ghost(self.processed@.push(cmd));
        let ghost prog = self.program;
        let ghost first = out@;
        self.pump_events(backend, mono_nanos, &mut out);
        proof {
            if first.len() > 0 {
                assert(out@.take(first.len() as int)[0] == out@[0]);
                assert(out@[0] == first[0]);
            }
            lemma_grown_trans(r0, r1, backend.received());
            let xs = backend.received().skip(r0.len() as int);
            let k: int = if asks_backend(cmd) { 1 } else { 0 };
            assert(hx.len() == k);
            assert(xs.take(k) =~= hx);
            assert(xs.skip(k) =~= backend.received().skip(r1.len() as int));
        }
        self.outputs = Ghost(self.outputs@.push(out@));
        (out, is_shutdown)
    }
}

} // verus!
