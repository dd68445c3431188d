//! The command-line shell: what each prompt line does to the session and
//! the backend, and what it prints. Reading lines and printing them is the
//! caller's part.
use vstd::prelude::*;
use crate::trace::record::{dup_pairs, dup_strings};
use crate::tra86::backend::error::{BackendError, backend_error_text};
use crate::tra86::backend::traits::{DebugBackend, LaunchRequest, Request};
use crate::tra86::cli::{CliCommand, StartupAction, line_parsed, parse_command_line, tokens_of};
use crate::tra86::listing::{
    addr_text, breakpoint_listing, breakpoint_lines, disassembly_lines, disassembly_listing, format_address, frame_lines,
    frame_listing, line_views, memory_lines, memory_listing, register_lines, register_listing, source_lines, source_listing,
    summary_lines, summary_listing, symbol_lines, symbol_listing, thread_lines, thread_listing,
};
use crate::tra86::model::{Address, Breakpoint, BreakpointLocation, StopReason, TargetBinary, ThreadId, ThreadState};
use crate::num::{dec_digits, fmt_dec};
use crate::text::{push_chars, push_str, string_of};

verus! {

/// Whether the shell goes on after a line.
#[derive(Debug, Clone, Copy, PartialEq, Eq, Structural)]
pub enum ControlFlow {
    Continue,
    Exit,
}

/// What the shell remembers between lines.
pub struct CliSession {
    pub target: Option<TargetBinary>,
    pub attached_pid: Option<u32>,
    pub last_stop_reason: StopReason,
    pub breakpoints: Vec<Breakpoint>,
}

/// The help the shell prints for `help`.
pub open spec fn repl_help() -> Seq<Seq<char>> {
    seq![
        "commands:"@,
        "  help                              show this help"@,
        "  open <program>                    load a target without launching"@,
        "  launch <program> [-- args...]     launch and stop at entry"@,
        "  attach <pid>                      attach to a running process"@,
        "  continue | c                      continue execution"@,
        "  pause                             interrupt execution"@,
        "  step | si                         single-step into"@,
        "  next | n                          step over"@,
        "  finish | out                      step out"@,
        "  status                            show current summary"@,
        "  refresh                           refresh summary and threads"@,
        "  threads                           list threads"@,
        "  frames [thread_id]                list frames"@,
        "  regs [thread_id]                  list registers"@,
        "  disasm [count] [addr]             show disassembly"@,
        "  mem <addr> [len]                  dump memory"@,
        "  break <addr>                      set address breakpoint"@,
        "  delete <breakpoint-id>            remove breakpoint"@,
        "  breakpoints | bp                  list breakpoints"@,
        "  symbols <addr>                    resolve symbol"@,
        "  source <addr>                     resolve source location"@,
        "  detach                            detach from process"@,
        "  kill | stop                       kill target process"@,
        "  quit | exit                       leave the CLI"@,
    ]
}

pub fn repl_help_lines() -> (r: Vec<String>)
    ensures
        line_views(r@) == repl_help(),
{
    let lines: Vec<&'static str> = vec![
        "commands:",
        "  help                              show this help",
        "  open <program>                    load a target without launching",
        "  launch <program> [-- args...]     launch and stop at entry",
        "  attach <pid>                      attach to a running process",
        "  continue | c                      continue execution",
        "  pause                             interrupt execution",
        "  step | si                         single-step into",
        "  next | n                          step over",
        "  finish | out                      step out",
        "  status                            show current summary",
        "  refresh                           refresh summary and threads",
        "  threads                           list threads",
        "  frames [thread_id]                list frames",
        "  regs [thread_id]                  list registers",
        "  disasm [count] [addr]             show disassembly",
        "  mem <addr> [len]                  dump memory",
        "  break <addr>                      set address breakpoint",
        "  delete <breakpoint-id>            remove breakpoint",
        "  breakpoints | bp                  list breakpoints",
        "  symbols <addr>                    resolve symbol",
        "  source <addr>                     resolve source location",
        "  detach                            detach from process",
        "  kill | stop                       kill target process",
        "  quit | exit                       leave the CLI",
    ];
    let mut r: Vec<String> = Vec::new();
    let mut i: usize = 0;
    while i < lines.len()
        invariant
            i <= lines@.len(),
            line_views(r@) =~= lines@.take(i as int).map_values(|l: &'static str| l@),
        decreases lines@.len() - i,
    {
        let ghost before = r@;
        r.push(lines[i].to_owned());
        proof {
            assert(lines@.take(i as int + 1) =~= lines@.take(i as int).push(lines@[i as int]));
            assert(line_views(r@) =~= line_views(before).push(lines@[i as int]@));
        }
        i = i + 1;
    }
    assert(lines@.take(i as int) =~= lines@);
    r
}

/// What a prompt line reads as: its words' meaning, or that a quote was
/// left open.
pub open spec fn line_read(line: Seq<char>, c: Result<Option<CliCommand>, String>) -> bool {
    match tokens_of(line) {
        None => c matches Err(e) && e@ == "unterminated quoted string"@,
        Some(t) => line_parsed(t, c),
    }
}

/// A launch of `program` with nothing else set.
pub open spec fn bare_target(t: TargetBinary, program: Seq<char>) -> bool {
    t.program@ == program && t.args@.len() == 0 && t.cwd is None && t.env@.len() == 0
}

/// What a command does to the session when it succeeds; every command but
/// `quit` then asks for the next line.
pub open spec fn command_done(a: CliSession, c: CliCommand, b: CliSession, r: Result<ControlFlow, String>) -> bool {
    &&& c is Quit ==> r == Ok::<ControlFlow, String>(ControlFlow::Exit) && b == a
    &&& !(c is Quit) && r is Ok ==> r == Ok::<ControlFlow, String>(ControlFlow::Continue)
    &&& match c {
        CliCommand::Open(p) => r is Ok ==> (b.target matches Some(t) && bare_target(t, p@)) && b.attached_pid is None
            && b.breakpoints@.len() == 0,
        CliCommand::Launch(t) => r is Ok ==> b.target == Some(t) && b.attached_pid is None && b.breakpoints@.len() == 0,
        CliCommand::Attach(pid) => r is Ok ==> b.target is None && b.attached_pid == Some(pid) && b.breakpoints@.len() == 0,
        CliCommand::Break(addr) => {
            &&& b.target == a.target
            &&& b.attached_pid == a.attached_pid
            &&& r is Ok ==> b.breakpoints@.len() == a.breakpoints@.len() + 1 && b.breakpoints@.drop_last() == a.breakpoints@
                && b.breakpoints@.last().location == BreakpointLocation::Address(addr)
        },
        CliCommand::Delete(id) => {
            &&& b.target == a.target
            &&& b.attached_pid == a.attached_pid
            &&& r is Ok ==> b.breakpoints@ == a.breakpoints@.filter(|x: Breakpoint| x.id != id)
        },
        CliCommand::Detach => {
            &&& b.target == a.target
            &&& b.breakpoints == a.breakpoints
            &&& r is Ok ==> b.attached_pid is None && b.last_stop_reason == StopReason::Detached
        },
        CliCommand::Kill => {
            &&& b.target == a.target
            &&& b.breakpoints == a.breakpoints
            &&& r is Ok ==> b.attached_pid is None && b.last_stop_reason == StopReason::Exited(0)
        },
        CliCommand::Help | CliCommand::Breakpoints | CliCommand::Quit => b == a,
        _ => b.target == a.target && b.attached_pid == a.attached_pid && b.breakpoints == a.breakpoints,
    }
}

/// `after` is `before` with one more request.
pub open spec fn one_more(before: Seq<Request>, after: Seq<Request>) -> bool {
    &&& after.len() == before.len() + 1
    &&& forall|i: int| 0 <= i < before.len() ==> #[trigger] after[i] == before[i]
}

/// The error a backend answer carried, if it failed.
pub open spec fn err_of<T>(answer: Result<T, BackendError>) -> Option<BackendError> {
    match answer {
        Ok(_) => None,
        Err(e) => Some(e),
    }
}

/// What the shell makes of a backend failure, or of none: the error's text
/// is the command's error; with no failure the command succeeds.
pub open spec fn reported(failure: Option<BackendError>, res: Result<(), String>) -> bool {
    match failure {
        None => res is Ok,
        Some(e) => res matches Err(m) && m@ == backend_error_text(e),
    }
}

/// A command's outcome in the shape the shell's steps return it.
pub open spec fn unit_of(r: Result<ControlFlow, String>) -> Result<(), String> {
    match r {
        Ok(_) => Ok(()),
        Err(m) => Err(m),
    }
}

/// The requests made from `before` on, when `after` keeps `before` as it was.
pub open spec fn grown(before: Seq<Request>, after: Seq<Request>) -> bool {
    after.len() >= before.len() && after.take(before.len() as int) == before
}

/// The requests a summary makes: none without a target or a process;
/// else the stop reason, and the threads when that was answered.
pub open spec fn summary_asked(known: bool, xs: Seq<Request>, res: Result<(), String>) -> bool {
    if !known {
        xs.len() == 0 && res is Ok
    } else {
        xs.len() >= 1 && match xs[0] {
            Request::CurrentStopReason { answer: Err(e) } => xs.len() == 1 && reported(Some(e), res),
            Request::CurrentStopReason { answer: Ok(_) } => xs.len() == 2 && xs[1] is ListThreads && res is Ok,
            _ => false,
        }
    }
}

/// The first current thread at or after `i`.
pub open spec fn current_from(ts: Seq<ThreadState>, i: int) -> Option<ThreadId>
    decreases ts.len() - i,
{
    if i < 0 || i >= ts.len() {
        None
    } else if ts[i].is_current {
        Some(ts[i].id)
    } else {
        current_from(ts, i + 1)
    }
}

/// The thread a command without one works on: the current thread, else the
/// first.
pub open spec fn chosen_thread(ts: Seq<ThreadState>) -> Option<ThreadId> {
    match current_from(ts, 0) {
        Some(t) => Some(t),
        None => if ts.len() > 0 {
            Some(ts[0].id)
        } else {
            None
        },
    }
}

/// The requests that settle which thread a command works on, and what the
/// command then asks of that thread (`asks_for`).
pub open spec fn thread_asked(
    arg: Option<ThreadId>,
    xs: Seq<Request>,
    res: Result<(), String>,
    asks_for: spec_fn(Request, ThreadId) -> bool,
) -> bool {
    match arg {
        Some(t) => xs.len() == 1 && asks_for(xs[0], t) && reported(failure_of(xs[0]), res),
        None => xs.len() >= 1 && match xs[0] {
            Request::ListThreads { answer: Err(e) } => xs.len() == 1 && reported(Some(e), res),
            Request::ListThreads { answer: Ok(ts) } => match chosen_thread(ts@) {
                None => xs.len() == 1 && (res matches Err(m) && m@ == "no thread available"@),
                Some(t) => xs.len() == 2 && asks_for(xs[1], t) && reported(failure_of(xs[1]), res),
            },
            _ => false,
        },
    }
}

/// The error in a request's answer, if it failed.
pub open spec fn failure_of(x: Request) -> Option<BackendError> {
    match x {
        Request::OpenTarget { answer, .. } => err_of(answer),
        Request::Launch { answer, .. } => err_of(answer),
        Request::Attach { answer, .. } => err_of(answer),
        Request::Detach { answer } => err_of(answer),
        Request::Kill { answer } => err_of(answer),
        Request::Continue { answer } => err_of(answer),
        Request::StepInto { answer } => err_of(answer),
        Request::StepOver { answer } => err_of(answer),
        Request::StepOut { answer } => err_of(answer),
        Request::Pause { answer } => err_of(answer),
        Request::ReadRegisters { answer, .. } => err_of(answer),
        Request::ReadMemory { answer, .. } => err_of(answer),
        Request::WriteMemory { answer, .. } => err_of(answer),
        Request::ListThreads { answer } => err_of(answer),
        Request::ListFrames { answer, .. } => err_of(answer),
        Request::SetBreakpoint { answer, .. } => err_of(answer),
        Request::RemoveBreakpoint { answer, .. } => err_of(answer),
        Request::Disassemble { answer, .. } => err_of(answer),
        Request::MemoryMap { answer } => err_of(answer),
        Request::CurrentInstruction { answer, .. } => err_of(answer),
        Request::CurrentStopReason { answer } => err_of(answer),
        Request::SourceLocation { answer, .. } => err_of(answer),
        Request::Symbolicate { answer, .. } => err_of(answer),
    }
}

/// A single request `x` whose answer decides the outcome.
pub open spec fn single(xs: Seq<Request>, x: Request, res: Result<(), String>) -> bool {
    xs.len() == 1 && xs[0] == x && reported(failure_of(x), res)
}

/// A request that moves the target (`is_move`), then, when it was carried
/// out, the summary.
pub open spec fn moved_then_summary(known: bool, xs: Seq<Request>, res: Result<(), String>, is_move: spec_fn(Request) -> bool) -> bool {
    xs.len() >= 1 && is_move(xs[0]) && match failure_of(xs[0]) {
        Some(e) => xs.len() == 1 && reported(Some(e), res),
        None => summary_asked(known, xs.skip(1), res),
    }
}

/// The requests each command makes of the backend, in order, and how its
/// outcome follows their answers. `known` says whether the session had a
/// target or a process before the command.
pub open spec fn command_asked(known: bool, cmd: CliCommand, xs: Seq<Request>, res: Result<(), String>) -> bool {
    match cmd {
        CliCommand::Help | CliCommand::Breakpoints | CliCommand::Quit => xs.len() == 0 && res is Ok,
        CliCommand::Open(p) => xs.len() >= 1 && match xs[0] {
            Request::OpenTarget { program, answer: Err(e) } => program == p@ && xs.len() == 1 && reported(Some(e), res),
            Request::OpenTarget { program, answer: Ok(_) } => program == p@ && xs.len() == 2 && (xs[1] matches
                Request::Disassemble { address, count, answer } && address is None && count == 12 && reported(err_of(answer), res)),
            _ => false,
        },
        CliCommand::Launch(t) => moved_then_summary(
            true,
            xs,
            res,
            |x: Request| x matches Request::Launch { request, .. } && request.target.program@ == t.program@
                && request.target.args@ == t.args@ && request.target.cwd == t.cwd && request.target.env@ == t.env@,
        ),
        CliCommand::Attach(pid) => moved_then_summary(true, xs, res, |x: Request| x matches Request::Attach { pid: p, .. } && p == pid),
        CliCommand::Continue => moved_then_summary(known, xs, res, |x: Request| x is Continue),
        CliCommand::Pause => moved_then_summary(known, xs, res, |x: Request| x is Pause),
        CliCommand::StepInto => moved_then_summary(known, xs, res, |x: Request| x is StepInto),
        CliCommand::StepOver => moved_then_summary(known, xs, res, |x: Request| x is StepOver),
        CliCommand::StepOut => moved_then_summary(known, xs, res, |x: Request| x is StepOut),
        CliCommand::Status => summary_asked(known, xs, res),
        CliCommand::Refresh => if !known {
            xs.len() == 1 && xs[0] is ListThreads && reported(failure_of(xs[0]), res)
        } else {
            xs.len() >= 1 && xs[0] is CurrentStopReason && match failure_of(xs[0]) {
                Some(e) => xs.len() == 1 && reported(Some(e), res),
                None => xs.len() == 3 && xs[1] is ListThreads && xs[2] is ListThreads && reported(failure_of(xs[2]), res),
            }
        },
        CliCommand::Threads => xs.len() == 1 && xs[0] is ListThreads && reported(failure_of(xs[0]), res),
        CliCommand::Frames(arg) => thread_asked(arg, xs, res, |x: Request, t: ThreadId| x matches Request::ListFrames { thread_id, .. } && thread_id == t),
        CliCommand::Registers(arg) => thread_asked(arg, xs, res, |x: Request, t: ThreadId| x matches Request::ReadRegisters { thread_id, .. } && thread_id == t),
        CliCommand::Disassemble(count, address) => xs.len() == 1 && (xs[0] matches Request::Disassemble { address: a, count: c, .. }
            && a == address && c == count) && reported(failure_of(xs[0]), res),
        CliCommand::Memory(address, length) => xs.len() == 1 && (xs[0] matches Request::ReadMemory { address: a, length: l, .. }
            && a == address && l == length) && reported(failure_of(xs[0]), res),
        CliCommand::Break(address) => xs.len() == 1 && (xs[0] matches Request::SetBreakpoint { location, .. }
            && location == BreakpointLocation::Address(address)) && reported(failure_of(xs[0]), res),
        CliCommand::Delete(id) => xs.len() == 1 && (xs[0] matches Request::RemoveBreakpoint { id: i, .. } && i == id)
            && reported(failure_of(xs[0]), res),
        CliCommand::Symbols(address) => xs.len() == 1 && (xs[0] matches Request::Symbolicate { address: a, .. } && a == address)
            && reported(failure_of(xs[0]), res),
        CliCommand::Source(address) => xs.len() == 1 && (xs[0] matches Request::SourceLocation { address: a, .. } && a == address)
            && reported(failure_of(xs[0]), res),
        CliCommand::Detach => xs.len() == 1 && xs[0] is Detach && reported(failure_of(xs[0]), res),
        CliCommand::Kill => xs.len() == 1 && xs[0] is Kill && reported(failure_of(xs[0]), res),
    }
}

/// A memory read of `length` bytes at `address`: the backend is asked for
/// exactly that, and its bytes are listed, or its error reported.
pub open spec fn memory_shown(
    before: Seq<Request>,
    after: Seq<Request>,
    address: u64,
    length: usize,
    out0: Seq<String>,
    out1: Seq<String>,
    r: Result<ControlFlow, String>,
) -> bool {
    exists|ans: Result<Vec<u8>, BackendError>| {
        &&& after == #[trigger] before.push(Request::ReadMemory { address, length, answer: ans })
        &&& match ans {
            Ok(bytes) => r == Ok::<ControlFlow, String>(ControlFlow::Continue) && line_views(out1) == line_views(out0)
                + memory_listing(address, bytes@),
            Err(e) => (r matches Err(m) && m@ == backend_error_text(e)) && out1 == out0,
        }
    }
}

/// The threads the first of `xs` listed, when it is a thread list that was
/// answered.
pub open spec fn listed_threads(xs: Seq<Request>) -> Seq<ThreadState> {
    if xs.len() >= 1 {
        match xs[0] {
            Request::ListThreads { answer: Ok(ts) } => ts@,
            _ => Seq::empty(),
        }
    } else {
        Seq::empty()
    }
}

/// What a summary prints, from the requests `xs` it made: that there is no
/// target, or the summary of the stop reason and the threads read, or
/// nothing when the stop reason could not be read.
pub open spec fn summary_printed(target: Option<TargetBinary>, pid: Option<u32>, xs: Seq<Request>) -> Seq<Seq<char>> {
    if target is None && pid is None {
        seq!["no active target"@]
    } else if xs.len() >= 1 {
        match xs[0] {
            Request::CurrentStopReason { answer: Ok(reason) } => summary_listing(target, pid, reason, listed_threads(xs.skip(1))),
            _ => Seq::empty(),
        }
    } else {
        Seq::empty()
    }
}

/// What the reply to a listing request prints: the listing of what was
/// answered; nothing when it failed.
pub open spec fn reply_printed(x: Request) -> Seq<Seq<char>> {
    match x {
        Request::ListThreads { answer: Ok(ts) } => thread_listing(ts@),
        Request::ListFrames { thread_id, answer: Ok(fs) } => frame_listing(thread_id, fs@),
        Request::ReadRegisters { thread_id, answer: Ok(bank) } => register_listing(thread_id, bank),
        Request::Disassemble { answer: Ok(d), .. } => disassembly_listing(d@),
        Request::Symbolicate { address, answer: Ok(sym) } => symbol_listing(address, sym),
        Request::SourceLocation { address, answer: Ok(src) } => source_listing(address, src),
        Request::ReadMemory { address, answer: Ok(bytes), .. } => memory_listing(address, bytes@),
        _ => Seq::empty(),
    }
}

/// What the last of `xs` prints when it is a request of the kind `is_kind`.
pub open spec fn last_printed(xs: Seq<Request>, is_kind: spec_fn(Request) -> bool) -> Seq<Seq<char>> {
    if xs.len() > 0 && is_kind(xs.last()) {
        reply_printed(xs.last())
    } else {
        Seq::empty()
    }
}

/// The first of `xs` was answered without an error.
pub open spec fn first_ok(xs: Seq<Request>) -> bool {
    xs.len() >= 1 && failure_of(xs[0]) is None
}

/// The lines a command prints, given the session `a` before it and the
/// requests `xs` it made, each with its answer.
pub open spec fn printed(a: CliSession, cmd: CliCommand, xs: Seq<Request>) -> Seq<Seq<char>> {
    match cmd {
        CliCommand::Help => repl_help(),
        CliCommand::Breakpoints => breakpoint_listing(a.breakpoints@),
        CliCommand::Quit => Seq::empty(),
        CliCommand::Open(p) => if first_ok(xs) {
            seq!["loaded target "@ + p@] + last_printed(xs.skip(1), |x: Request| x is Disassemble)
        } else {
            Seq::empty()
        },
        CliCommand::Launch(t) => if first_ok(xs) {
            seq!["launched "@ + t.program@] + summary_printed(Some(t), None, xs.skip(1))
        } else {
            Seq::empty()
        },
        CliCommand::Attach(pid) => if first_ok(xs) {
            seq!["attached to pid "@ + dec_digits(pid as nat)] + summary_printed(None, Some(pid), xs.skip(1))
        } else {
            Seq::empty()
        },
        CliCommand::Continue => if first_ok(xs) {
            seq!["continued target"@] + summary_printed(a.target, a.attached_pid, xs.skip(1))
        } else {
            Seq::empty()
        },
        CliCommand::Pause | CliCommand::StepInto | CliCommand::StepOver | CliCommand::StepOut => if first_ok(xs) {
            summary_printed(a.target, a.attached_pid, xs.skip(1))
        } else {
            Seq::empty()
        },
        CliCommand::Status => summary_printed(a.target, a.attached_pid, xs),
        CliCommand::Refresh => {
            let s = summary_printed(a.target, a.attached_pid, xs);
            if a.target is None && a.attached_pid is None || xs.len() == 3 {
                s + last_printed(xs, |x: Request| x is ListThreads)
            } else {
                s
            }
        },
        CliCommand::Threads => last_printed(xs, |x: Request| x is ListThreads),
        CliCommand::Frames(_) => last_printed(xs, |x: Request| x is ListFrames),
        CliCommand::Registers(_) => last_printed(xs, |x: Request| x is ReadRegisters),
        CliCommand::Disassemble(..) => last_printed(xs, |x: Request| x is Disassemble),
        CliCommand::Memory(..) => last_printed(xs, |x: Request| x is ReadMemory),
        CliCommand::Symbols(_) => last_printed(xs, |x: Request| x is Symbolicate),
        CliCommand::Source(_) => last_printed(xs, |x: Request| x is SourceLocation),
        CliCommand::Break(address) => if xs.len() >= 1 {
            match xs[0] {
                Request::SetBreakpoint { answer: Ok(bp), .. } => seq![
                    "breakpoint "@ + dec_digits(bp.id as nat) + " set at "@ + addr_text(address),
                ],
                _ => Seq::empty(),
            }
        } else {
            Seq::empty()
        },
        CliCommand::Delete(id) => if first_ok(xs) {
            seq!["removed breakpoint "@ + dec_digits(id as nat)]
        } else {
            Seq::empty()
        },
        CliCommand::Detach => if first_ok(xs) {
            seq!["detached from process"@]
        } else {
            Seq::empty()
        },
        CliCommand::Kill => if first_ok(xs) {
            seq!["killed target"@]
        } else {
            Seq::empty()
        },
    }
}

proof fn lemma_views_append(a: Seq<String>, b: Seq<String>)
    ensures
        line_views(a + b) == line_views(a) + line_views(b),
{
    assert(line_views(a + b) =~= line_views(a) + line_views(b));
}

proof fn lemma_views_push(a: Seq<String>, x: String)
    ensures
        line_views(a.push(x)) == line_views(a).push(x@),
{
    assert(line_views(a.push(x)) =~= line_views(a).push(x@));
}

/// `b` is `a` with more lines after it.
pub open spec fn extends(a: Seq<String>, b: Seq<String>) -> bool {
    b.len() >= a.len() && b.take(a.len() as int) == a
}

pub proof fn lemma_extends_trans(a: Seq<String>, b: Seq<String>, c: Seq<String>)
    requires
        extends(a, b),
        extends(b, c),
    ensures
        extends(a, c),
{
    assert(c.take(a.len() as int) =~= c.take(b.len() as int).take(a.len() as int));
}

pub proof fn lemma_extends_refl(a: Seq<String>)
    ensures
        extends(a, a),
{
    assert(a.take(a.len() as int) =~= a);
}

proof fn lemma_grown_refl(a: Seq<Request>)
    ensures
        grown(a, a),
        a.skip(a.len() as int).len() == 0,
{
    assert(a.take(a.len() as int) =~= a);
}

/// One request `x` made after `r0`, then whatever came after `r1`.
proof fn lemma_grown_push(r0: Seq<Request>, x: Request, r1: Seq<Request>, r2: Seq<Request>)
    requires
        r1 == r0.push(x),
        grown(r1, r2),
    ensures
        grown(r0, r2),
        r2.skip(r0.len() as int).len() >= 1,
        r2.skip(r0.len() as int)[0] == x,
        r2.skip(r0.len() as int).skip(1) == r2.skip(r1.len() as int),
{
    assert(r2.take(r0.len() as int) =~= r1.take(r0.len() as int));
    assert(r1.take(r0.len() as int) =~= r0);
    assert(r2[r0.len() as int] == r1[r0.len() as int]);
    assert(r2.skip(r0.len() as int).skip(1) =~= r2.skip(r1.len() as int));
}

proof fn lemma_grown_trans(a: Seq<Request>, b: Seq<Request>, c: Seq<Request>)
    requires
        grown(a, b),
        grown(b, c),
    ensures
        grown(a, c),
        c.skip(a.len() as int) == b.skip(a.len() as int) + c.skip(b.len() as int),
{
    assert(c.take(a.len() as int) =~= c.take(b.len() as int).take(a.len() as int));
    assert(c.take(b.len() as int).skip(a.len() as int) =~= b.skip(a.len() as int));
    assert(c.skip(a.len() as int) =~= c.take(b.len() as int).skip(a.len() as int) + c.skip(b.len() as int));
}

/// The backend's error as the shell reports it.
fn failure(e: BackendError) -> (m: String)
    ensures
        m@ == backend_error_text(e),
{
    e.message()
}

fn push_lines(out: &mut Vec<String>, lines: Vec<String>)
    ensures
        final(out)@ == old(out)@ + lines@,
        extends(old(out)@, final(out)@),
        line_views(final(out)@) == line_views(old(out)@) + line_views(lines@),
{
    proof {
        lemma_views_append(old(out)@, lines@);
    }
    let mut i: usize = 0;
    let mut lines = lines;
    let ghost all = lines@;
    while i < lines.len()
        invariant
            i <= all.len(),
            lines@ == all,
            out@ == old(out)@ + all.take(i as int),
        decreases all.len() - i,
    {
        let l = lines[i].clone();
        out.push(l);
        proof {
            assert(all.take(i as int + 1) =~= all.take(i as int).push(all[i as int]));
        }
        i = i + 1;
    }
    assert(all.take(i as int) =~= all);
    assert(out@.take(old(out)@.len() as int) =~= old(out)@);
}

fn push_line(out: &mut Vec<String>, line: String)
    ensures
        final(out)@ == old(out)@.push(line),
        extends(old(out)@, final(out)@),
        line_views(final(out)@) == line_views(old(out)@).push(line@),
{
    proof {
        lemma_views_push(old(out)@, line);
    }
    out.push(line);
    assert(out@.take(old(out)@.len() as int) =~= old(out)@);
}

fn text_with(prefix: &str, s: &str) -> (r: String)
    ensures
        r@ == prefix@ + s@,
{
    let mut v: Vec<char> = Vec::new();
    push_str(&mut v, prefix);
    push_str(&mut v, s);
    string_of(v.as_slice())
}

fn text_with_number(prefix: &str, n: u64) -> (r: String)
    ensures
        r@ == prefix@ + dec_digits(n as nat),
{
    let mut v: Vec<char> = Vec::new();
    push_str(&mut v, prefix);
    let d = fmt_dec(n);
    push_chars(&mut v, d.as_slice());
    string_of(v.as_slice())
}

impl CliSession {
    pub fn new() -> (s: CliSession)
        ensures
            s.target is None,
            s.attached_pid is None,
            s.last_stop_reason == StopReason::NoReason,
            s.breakpoints@.len() == 0,
    {
        CliSession { target: None, attached_pid: None, last_stop_reason: StopReason::NoReason, breakpoints: Vec::new() }
    }

    /// The lines the shell greets with.
    pub fn banner_lines() -> (r: Vec<String>)
        ensures
            line_views(r@) == seq!["tra86 CLI"@, "type `help` for commands, `quit` to exit"@],
    {
        let mut r: Vec<String> = Vec::new();
        r.push("tra86 CLI".to_owned());
        r.push("type `help` for commands, `quit` to exit".to_owned());
        assert(line_views(r@) =~= seq!["tra86 CLI"@, "type `help` for commands, `quit` to exit"@]);
        r
    }

    /// Prints the summary of the session: nothing to ask without a target;
    /// else the stop reason is fetched and remembered, with the threads.
    fn refresh_summary<B: DebugBackend + ?Sized>(&mut self, backend: &mut B, out: &mut Vec<String>) -> (r: Result<(), String>)
        ensures
            grown(old(backend).received(), final(backend).received()),
            summary_asked(
                old(self).target is Some || old(self).attached_pid is Some,
                final(backend).received().skip(old(backend).received().len() as int),
                r,
            ),
            ({
                let xs = final(backend).received().skip(old(backend).received().len() as int);
                xs.len() >= 1 ==> (xs[0] matches Request::CurrentStopReason { answer: Ok(reason) } ==> final(self).last_stop_reason
                    == reason)
            }),
            line_views(final(out)@) == line_views(old(out)@) + summary_printed(
                old(self).target,
                old(self).attached_pid,
                final(backend).received().skip(old(backend).received().len() as int),
            ),
            final(self).target == old(self).target,
            final(self).attached_pid == old(self).attached_pid,
            final(self).breakpoints == old(self).breakpoints,
            extends(old(out)@, final(out)@),
    {
        proof {
            lemma_extends_refl(out@);
        }
        let ghost r0 = backend.received();
        proof {
            lemma_grown_refl(r0);
        }
        let ghost o0 = out@;
        if self.target.is_none() && self.attached_pid.is_none() {
            push_line(out, "no active target".to_owned());
            return Ok(());
        }
        let ans = backend.current_stop_reason();
        let ghost r1 = backend.received();
        proof {
            lemma_grown_refl(r1);
            lemma_grown_push(r0, Request::CurrentStopReason { answer: ans }, r1, r1);
        }
        match ans {
            Ok(reason) => {
                self.last_stop_reason = reason;
            },
            Err(e) => {
                assert(line_views(out@) =~= line_views(o0) + Seq::<Seq<char>>::empty());
                return Err(failure(e));
            },
        }
        let listed = backend.list_threads();
        proof {
            let r2 = backend.received();
            lemma_grown_refl(r2);
            lemma_grown_push(r1, Request::ListThreads { answer: listed }, r2, r2);
            lemma_grown_trans(r0, r1, r2);
            assert(r2.skip(r0.len() as int) =~= seq![Request::CurrentStopReason { answer: ans }, Request::ListThreads { answer: listed }]);
        }
        let threads = match listed {
            Ok(t) => t,
            Err(_) => Vec::new(),
        };
        let lines = summary_lines(&self.target, self.attached_pid, &self.last_stop_reason, &threads);
        proof {
            let xs = backend.received().skip(r0.len() as int);
            assert(xs.skip(1)[0] == xs[1]);
            assert(listed_threads(xs.skip(1)) == threads@);
        }
        push_lines(out, lines);
        Ok(())
    }

    fn print_threads<B: DebugBackend + ?Sized>(backend: &mut B, out: &mut Vec<String>) -> (r: Result<(), String>)
        ensures
            extends(old(out)@, final(out)@),
            grown(old(backend).received(), final(backend).received()),
            ({
                let xs = final(backend).received().skip(old(backend).received().len() as int);
                xs.len() == 1 && xs[0] is ListThreads && reported(failure_of(xs[0]), r) && line_views(final(out)@)
                    == line_views(old(out)@) + reply_printed(xs[0])
            }),
    {
        proof {
            lemma_extends_refl(out@);
        }
        let ghost r0 = backend.received();
        let ans = backend.list_threads();
        proof {
            let r1 = backend.received();
            lemma_grown_refl(r1);
            lemma_grown_push(r0, Request::ListThreads { answer: ans }, r1, r1);
        }
        match ans {
            Ok(threads) => {
                let lines = thread_lines(&threads);
                push_lines(out, lines);
                Ok(())
            },
            Err(e) => {
                assert(line_views(out@) =~= line_views(old(out)@) + Seq::<Seq<char>>::empty());
                Err(failure(e))
            },
        }
    }

    fn print_disassembly<B: DebugBackend + ?Sized>(backend: &mut B, address: Option<Address>, count: usize, out: &mut Vec<String>) -> (r: Result<(), String>)
        ensures
            extends(old(out)@, final(out)@),
            grown(old(backend).received(), final(backend).received()),
            ({
                let xs = final(backend).received().skip(old(backend).received().len() as int);
                xs.len() == 1 && (xs[0] matches Request::Disassemble { address: a, count: c, .. } && a == address && c == count)
                    && reported(failure_of(xs[0]), r) && line_views(final(out)@) == line_views(old(out)@) + reply_printed(
                    xs[0],
                )
            }),
    {
        proof {
            lemma_extends_refl(out@);
        }
        let ghost r0 = backend.received();
        let ans = backend.disassemble(address, count);
        proof {
            let r1 = backend.received();
            lemma_grown_refl(r1);
            lemma_grown_push(r0, Request::Disassemble { address, count, answer: ans }, r1, r1);
        }
        match ans {
            Ok(lines) => {
                let text = disassembly_lines(&lines);
                push_lines(out, text);
                Ok(())
            },
            Err(e) => {
                assert(line_views(out@) =~= line_views(old(out)@) + Seq::<Seq<char>>::empty());
                Err(failure(e))
            },
        }
    }

    /// The thread a command names, else the current thread, else the first.
    fn resolve_thread_arg<B: DebugBackend + ?Sized>(backend: &mut B, arg: Option<ThreadId>) -> (r: Result<ThreadId, String>)
        ensures
            grown(old(backend).received(), final(backend).received()),
            ({
                let xs = final(backend).received().skip(old(backend).received().len() as int);
                match arg {
                    Some(t) => xs.len() == 0 && r == Ok::<ThreadId, String>(t),
                    None => xs.len() == 1 && match xs[0] {
                        Request::ListThreads { answer: Err(e) } => r matches Err(m) && m@ == backend_error_text(e),
                        Request::ListThreads { answer: Ok(ts) } => match chosen_thread(ts@) {
                            None => r matches Err(m) && m@ == "no thread available"@,
                            Some(t) => r == Ok::<ThreadId, String>(t),
                        },
                        _ => false,
                    },
                }
            }),
    {
        let ghost r0 = backend.received();
        proof {
            lemma_grown_refl(r0);
        }
        match arg {
            Some(t) => Ok(t),
            None => {
                let ans = backend.list_threads();
                proof {
                    let r1 = backend.received();
                    lemma_grown_refl(r1);
                    lemma_grown_push(r0, Request::ListThreads { answer: ans }, r1, r1);
                }
                let threads = match ans {
                    Ok(t) => t,
                    Err(e) => {
                        return Err(failure(e));
                    },
                };
                let mut i: usize = 0;
                while i < threads.len() && !threads[i].is_current
                    invariant
                        i <= threads@.len(),
                        current_from(threads@, 0) == current_from(threads@, i as int),
                    decreases threads@.len() - i,
                {
                    i = i + 1;
                }
                if i < threads.len() {
                    Ok(threads[i].id)
                } else if threads.len() > 0 {
                    Ok(threads[0].id)
                } else {
                    Err("no thread available".to_owned())
                }
            },
        }
    }

    fn open<B: DebugBackend + ?Sized>(&mut self, backend: &mut B, program: String, out: &mut Vec<String>) -> (r: Result<(), String>)
        ensures
            extends(old(out)@, final(out)@),
            r is Ok ==> (final(self).target matches Some(t) && bare_target(t, program@)) && final(self).attached_pid is None
                && final(self).breakpoints@.len() == 0,
            grown(old(backend).received(), final(backend).received()),
            command_asked(true, CliCommand::Open(program), final(backend).received().skip(old(backend).received().len() as int), r),
            line_views(final(out)@) == line_views(old(out)@) + printed(
                *old(self),
                CliCommand::Open(program),
                final(backend).received().skip(old(backend).received().len() as int),
            ),
    {
        proof {
            lemma_extends_refl(out@);
        }
        let ghost r0 = backend.received();
        let ans = backend.open_target(program.as_str());
        let ghost r1 = backend.received();
        proof {
            lemma_grown_refl(r1);
            lemma_grown_push(r0, Request::OpenTarget { program: program@, answer: ans }, r1, r1);
        }
        match ans {
            Ok(()) => {},
            Err(e) => {
                return Err(failure(e));
            },
        }
        let line = text_with("loaded target ", program.as_str());
        self.target = Some(TargetBinary { program, args: Vec::new(), cwd: None, env: Vec::new() });
        self.attached_pid = None;
        self.breakpoints = Vec::new();
        let ghost o0 = out@;
        push_line(out, line);
        let ghost o1 = out@;
        let r = Self::print_disassembly(backend, None, 12, out);
        proof {
            lemma_extends_trans(o0, o1, out@);
            lemma_grown_push(r0, Request::OpenTarget { program: program@, answer: ans }, r1, backend.received());
        }
        r
    }

    fn launch<B: DebugBackend + ?Sized>(&mut self, backend: &mut B, target: TargetBinary, out: &mut Vec<String>) -> (r: Result<(), String>)
        ensures
            extends(old(out)@, final(out)@),
            r is Ok ==> final(self).target == Some(target) && final(self).attached_pid is None
                && final(self).breakpoints@.len() == 0,
            grown(old(backend).received(), final(backend).received()),
            command_asked(true, CliCommand::Launch(target), final(backend).received().skip(old(backend).received().len() as int), r),
            line_views(final(out)@) == line_views(old(out)@) + printed(
                *old(self),
                CliCommand::Launch(target),
                final(backend).received().skip(old(backend).received().len() as int),
            ),
    {
        let request = LaunchRequest {
            target: TargetBinary {
                program: target.program.clone(),
                args: dup_strings(&target.args),
                cwd: crate::bind_core::model::dup_opt_string(&target.cwd),
                env: dup_pairs(&target.env),
            },
        };
        proof {
            lemma_extends_refl(out@);
        }
        let ghost r0 = backend.received();
        let ghost req = request;
        let ans = backend.launch(request);
        let ghost r1 = backend.received();
        proof {
            lemma_grown_refl(r1);
            lemma_grown_push(r0, Request::Launch { request: req, answer: ans }, r1, r1);
        }
        match ans {
            Ok(()) => {},
            Err(e) => {
                return Err(failure(e));
            },
        }
        let line = text_with("launched ", target.program.as_str());
        self.target = Some(target);
        self.attached_pid = None;
        self.breakpoints = Vec::new();
        let ghost o0 = out@;
        push_line(out, line);
        let ghost o1 = out@;
        let r = self.refresh_summary(backend, out);
        proof {
            lemma_extends_trans(o0, o1, out@);
            lemma_grown_push(r0, Request::Launch { request: req, answer: ans }, r1, backend.received());
        }
        r
    }

    fn attach<B: DebugBackend + ?Sized>(&mut self, backend: &mut B, pid: u32, out: &mut Vec<String>) -> (r: Result<(), String>)
        ensures
            extends(old(out)@, final(out)@),
            r is Ok ==> final(self).target is None && final(self).attached_pid == Some(pid)
                && final(self).breakpoints@.len() == 0,
            grown(old(backend).received(), final(backend).received()),
            command_asked(true, CliCommand::Attach(pid), final(backend).received().skip(old(backend).received().len() as int), r),
            line_views(final(out)@) == line_views(old(out)@) + printed(
                *old(self),
                CliCommand::Attach(pid),
                final(backend).received().skip(old(backend).received().len() as int),
            ),
    {
        proof {
            lemma_extends_refl(out@);
        }
        let ghost r0 = backend.received();
        let ans = backend.attach(pid);
        let ghost r1 = backend.received();
        proof {
            lemma_grown_refl(r1);
            lemma_grown_push(r0, Request::Attach { pid, answer: ans }, r1, r1);
        }
        match ans {
            Ok(()) => {},
            Err(e) => {
                return Err(failure(e));
            },
        }
        self.target = None;
        self.attached_pid = Some(pid);
        self.breakpoints = Vec::new();
        let ghost o0 = out@;
        push_line(out, text_with_number("attached to pid ", pid as u64));
        let ghost o1 = out@;
        let r = self.refresh_summary(backend, out);
        proof {
            lemma_extends_trans(o0, o1, out@);
            lemma_grown_push(r0, Request::Attach { pid, answer: ans }, r1, backend.received());
        }
        r
    }

    /// Carries out the startup request given on the command line.
    pub fn apply_startup<B: DebugBackend + ?Sized>(&mut self, backend: &mut B, startup: StartupAction, out: &mut Vec<String>) -> (r: Result<(), String>)
        ensures
            match startup {
                StartupAction::NoAction | StartupAction::Help => r is Ok && *final(self) == *old(self),
                StartupAction::Open(p) => r is Ok ==> (final(self).target matches Some(t) && bare_target(t, p@)),
                StartupAction::Launch(t) => r is Ok ==> final(self).target == Some(t),
                StartupAction::Attach(pid) => r is Ok ==> final(self).attached_pid == Some(pid),
            },
            grown(old(backend).received(), final(backend).received()),
            ({
                let xs = final(backend).received().skip(old(backend).received().len() as int);
                match startup {
                    StartupAction::NoAction | StartupAction::Help => xs.len() == 0,
                    StartupAction::Open(p) => command_asked(true, CliCommand::Open(p), xs, r),
                    StartupAction::Launch(t) => command_asked(true, CliCommand::Launch(t), xs, r),
                    StartupAction::Attach(pid) => command_asked(true, CliCommand::Attach(pid), xs, r),
                }
            }),
    {
        proof {
            lemma_grown_refl(backend.received());
        }
        match startup {
            StartupAction::NoAction => Ok(()),
            StartupAction::Help => Ok(()),
            StartupAction::Open(program) => self.open(backend, program, out),
            StartupAction::Launch(target) => self.launch(backend, target, out),
            StartupAction::Attach(pid) => self.attach(backend, pid, out),
        }
    }

    /// Removes the breakpoints with `id` from the list.
    fn forget_breakpoint(&mut self, id: u64)
        ensures
            final(self).breakpoints@ == old(self).breakpoints@.filter(|x: Breakpoint| x.id != id),
            final(self).target == old(self).target,
            final(self).attached_pid == old(self).attached_pid,
            final(self).last_stop_reason == old(self).last_stop_reason,
    {
        let mut rest: Vec<Breakpoint> = Vec::new();
        std::mem::swap(&mut rest, &mut self.breakpoints);
        let ghost all = rest@;
        let n = rest.len();
        let mut kept: Vec<Breakpoint> = Vec::new();
        let mut i: usize = 0;
        while rest.len() > 0
            invariant
                i <= all.len(),
                all.len() == n,
                i + rest@.len() == all.len(),
                rest@ == all.skip(i as int),
                kept@ == all.take(i as int).filter(|x: Breakpoint| x.id != id),
            decreases rest@.len(),
        {
            let ghost r0 = rest@;
            let b = rest.remove(0);
            proof {
                assert(b == all[i as int]);
                assert(all.take(i as int + 1).drop_last() =~= all.take(i as int));
                assert(all.take(i as int + 1).last() == all[i as int]);
                reveal(Seq::filter);
                assert(rest@ =~= all.skip(i as int + 1));
            }
            if b.id != id {
                kept.push(b);
            }
            i = i + 1;
        }
        assert(all.take(i as int) =~= all);
        self.breakpoints = kept;
    }

    /// Reads and carries out one prompt line, appending what it prints to
    /// `out`.
    pub fn handle_line<B: DebugBackend + ?Sized>(&mut self, backend: &mut B, line: &str, out: &mut Vec<String>) -> (r: Result<ControlFlow, String>)
        ensures
            extends(old(out)@, final(out)@),
            grown(old(backend).received(), final(backend).received()),
            exists|c: Result<Option<CliCommand>, String>| #[trigger] line_read(line@, c) && match c {
                Err(e) => r matches Err(m) && m@ == e@ && *final(self) == *old(self) && final(out)@ == old(out)@
                    && final(backend).received() == old(backend).received(),
                Ok(None) => r == Ok::<ControlFlow, String>(ControlFlow::Continue) && *final(self) == *old(self)
                    && final(out)@ == old(out)@ && final(backend).received() == old(backend).received(),
                Ok(Some(cmd)) => {
                    &&& command_done(*old(self), cmd, *final(self), r)
                    &&& command_asked(
                        old(self).target is Some || old(self).attached_pid is Some,
                        cmd,
                        final(backend).received().skip(old(backend).received().len() as int),
                        unit_of(r),
                    )
                    &&& line_views(final(out)@) == line_views(old(out)@) + printed(
                        *old(self),
                        cmd,
                        final(backend).received().skip(old(backend).received().len() as int),
                    )
                    &&& cmd is Help ==> final(out)@.map_values(|s: String| s@) == old(out)@.map_values(|s: String| s@)
                        + repl_help()
                    &&& cmd is Breakpoints ==> final(out)@.map_values(|s: String| s@) == old(out)@.map_values(
                        |s: String| s@,
                    ) + breakpoint_listing(old(self).breakpoints@)
                    &&& cmd matches CliCommand::Memory(address, length) ==> memory_shown(
                        old(backend).received(),
                        final(backend).received(),
                        address,
                        length,
                        old(out)@,
                        final(out)@,
                        r,
                    )
                },
            },
    {
        proof {
            lemma_extends_refl(out@);
        }
        let ghost r0 = backend.received();
        proof {
            lemma_grown_refl(r0);
        }
        let ghost known = self.target is Some || self.attached_pid is Some;
        let parsed = parse_command_line(line);
        let ghost pc = parsed;
        proof {
            assert(line_read(line@, pc));
        }
        let command = match parsed {
            Ok(Some(c)) => c,
            Ok(None) => {
                return Ok(ControlFlow::Continue);
            },
            Err(e) => {
                return Err(e);
            },
        };
        let ghost cmd = command;
        let ghost before = out@;
        let mut quit = false;
        let result: Result<(), String> = match command {
            CliCommand::Help => {
                let lines = repl_help_lines();
                let ghost lv = lines@;
                push_lines(out, lines);
                assert(out@.map_values(|s: String| s@) =~= before.map_values(|s: String| s@) + line_views(lv));
                Ok(())
            },
            CliCommand::Open(program) => self.open(backend, program, out),
            CliCommand::Launch(target) => self.launch(backend, target, out),
            CliCommand::Attach(pid) => self.attach(backend, pid, out),
            CliCommand::Continue => {
                let ans = backend.continue_exec();
                let ghost r1 = backend.received();
                let ghost x = Request::Continue { answer: ans };
                match ans {
                    Ok(()) => {
                        let ghost o0 = out@;
                        push_line(out, "continued target".to_owned());
                        let ghost o1 = out@;
                        let r = self.refresh_summary(backend, out);
                        proof {
                            lemma_extends_trans(o0, o1, out@);
                            lemma_grown_push(r0, x, r1, backend.received());
                        }
                        r
                    },
                    Err(e) => {
                        proof {
                            lemma_grown_refl(r1);
                            lemma_grown_push(r0, x, r1, r1);
                        }
                        Err(failure(e))
                    },
                }
            },
            CliCommand::Pause => {
                let ans = backend.pause();
                let ghost r1 = backend.received();
                let ghost x = Request::Pause { answer: ans };
                proof {
                    lemma_grown_refl(r1);
                    lemma_grown_push(r0, x, r1, r1);
                }
                match ans {
                    Ok(()) => {
                        let r = self.refresh_summary(backend, out);
                        proof {
                            lemma_grown_push(r0, x, r1, backend.received());
                        }
                        r
                    },
                    Err(e) => Err(failure(e)),
                }
            },
            CliCommand::StepInto => {
                let ans = backend.step_into();
                let ghost r1 = backend.received();
                let ghost x = Request::StepInto { answer: ans };
                proof {
                    lemma_grown_refl(r1);
                    lemma_grown_push(r0, x, r1, r1);
                }
                match ans {
                    Ok(()) => {
                        let r = self.refresh_summary(backend, out);
                        proof {
                            lemma_grown_push(r0, x, r1, backend.received());
                        }
                        r
                    },
                    Err(e) => Err(failure(e)),
                }
            },
            CliCommand::StepOver => {
                let ans = backend.step_over();
                let ghost r1 = backend.received();
                let ghost x = Request::StepOver { answer: ans };
                proof {
                    lemma_grown_refl(r1);
                    lemma_grown_push(r0, x, r1, r1);
                }
                match ans {
                    Ok(()) => {
                        let r = self.refresh_summary(backend, out);
                        proof {
                            lemma_grown_push(r0, x, r1, backend.received());
                        }
                        r
                    },
                    Err(e) => Err(failure(e)),
                }
            },
            CliCommand::StepOut => {
                let ans = backend.step_out();
                let ghost r1 = backend.received();
                let ghost x = Request::StepOut { answer: ans };
                proof {
                    lemma_grown_refl(r1);
                    lemma_grown_push(r0, x, r1, r1);
                }
                match ans {
                    Ok(()) => {
                        let r = self.refresh_summary(backend, out);
                        proof {
                            lemma_grown_push(r0, x, r1, backend.received());
                        }
                        r
                    },
                    Err(e) => Err(failure(e)),
                }
            },
            CliCommand::Threads => Self::print_threads(backend, out),
            CliCommand::Frames(arg) => {
                let chosen = Self::resolve_thread_arg(backend, arg);
                let ghost r1 = backend.received();
                proof {
                    lemma_grown_refl(r1);
                    lemma_grown_trans(r0, r1, r1);
                }
                match chosen {
                    Ok(tid) => {
                        let ans = backend.list_frames(tid);
                        let ghost x = Request::ListFrames { thread_id: tid, answer: ans };
                        let ghost r2 = backend.received();
                        proof {
                            lemma_grown_refl(r2);
                            lemma_grown_push(r1, x, r2, r2);
                            lemma_grown_trans(r0, r1, r2);
                            assert(r2.skip(r1.len() as int) =~= seq![x]);
                        }
                        match ans {
                            Ok(frames) => {
                                push_lines(out, frame_lines(tid, &frames));
                                Ok(())
                            },
                            Err(e) => Err(failure(e)),
                        }
                    },
                    Err(m) => Err(m),
                }
            },
            CliCommand::Registers(arg) => {
                let chosen = Self::resolve_thread_arg(backend, arg);
                let ghost r1 = backend.received();
                proof {
                    lemma_grown_refl(r1);
                    lemma_grown_trans(r0, r1, r1);
                }
                match chosen {
                    Ok(tid) => {
                        let ans = backend.read_registers(tid);
                        let ghost x = Request::ReadRegisters { thread_id: tid, answer: ans };
                        let ghost r2 = backend.received();
                        proof {
                            lemma_grown_refl(r2);
                            lemma_grown_push(r1, x, r2, r2);
                            lemma_grown_trans(r0, r1, r2);
                            assert(r2.skip(r1.len() as int) =~= seq![x]);
                        }
                        match ans {
                            Ok(bank) => {
                                push_lines(out, register_lines(tid, &bank));
                                Ok(())
                            },
                            Err(e) => Err(failure(e)),
                        }
                    },
                    Err(m) => Err(m),
                }
            },
            CliCommand::Disassemble(count, address) => Self::print_disassembly(backend, address, count, out),
            CliCommand::Memory(address, length) => {
                let ans = backend.read_memory(address, length);
                let ghost a = ans;
                proof {
                    let r1 = backend.received();
                    lemma_grown_refl(r1);
                    lemma_grown_push(r0, Request::ReadMemory { address, length, answer: ans }, r1, r1);
                }
                match ans {
                    Ok(bytes) => {
                        let lines = memory_lines(address, bytes.as_slice());
                        let ghost lv = lines@;
                        push_lines(out, lines);
                        assert(line_views(out@) =~= line_views(before) + line_views(lv));
                        Ok(())
                    },
                    Err(e) => Err(failure(e)),
                }
            },
            CliCommand::Break(address) => {
                let ans = backend.set_breakpoint(BreakpointLocation::Address(address));
                proof {
                    let r1 = backend.received();
                    lemma_grown_refl(r1);
                    lemma_grown_push(r0, Request::SetBreakpoint { location: BreakpointLocation::Address(address), answer: ans }, r1, r1);
                }
                match ans {
                    Ok(bp) => {
                        let mut v: Vec<char> = Vec::new();
                        push_str(&mut v, "breakpoint ");
                        let d = fmt_dec(bp.id);
                        push_chars(&mut v, d.as_slice());
                        push_str(&mut v, " set at ");
                        let a = format_address(address);
                        push_str(&mut v, a.as_str());
                        let b = Breakpoint {
                            id: bp.id,
                            location: BreakpointLocation::Address(address),
                            enabled: bp.enabled,
                            hit_count: bp.hit_count,
                        };
                        let ghost bs0 = self.breakpoints@;
                        self.breakpoints.push(b);
                        assert(self.breakpoints@.drop_last() =~= bs0);
                        push_line(out, string_of(v.as_slice()));
                        Ok(())
                    },
                    Err(e) => Err(failure(e)),
                }
            },
            CliCommand::Delete(id) => {
                let ans = backend.remove_breakpoint(id);
                proof {
                    let r1 = backend.received();
                    lemma_grown_refl(r1);
                    lemma_grown_push(r0, Request::RemoveBreakpoint { id, answer: ans }, r1, r1);
                }
                match ans {
                    Ok(()) => {
                        self.forget_breakpoint(id);
                        push_line(out, text_with_number("removed breakpoint ", id));
                        Ok(())
                    },
                    Err(e) => Err(failure(e)),
                }
            },
            CliCommand::Breakpoints => {
                let lines = breakpoint_lines(&self.breakpoints);
                let ghost lv = lines@;
                push_lines(out, lines);
                assert(out@.map_values(|s: String| s@) =~= before.map_values(|s: String| s@) + line_views(lv));
                Ok(())
            },
            CliCommand::Symbols(address) => {
                let ans = backend.symbolicate(address);
                proof {
                    let r1 = backend.received();
                    lemma_grown_refl(r1);
                    lemma_grown_push(r0, Request::Symbolicate { address, answer: ans }, r1, r1);
                }
                match ans {
                    Ok(sym) => {
                        push_lines(out, symbol_lines(address, &sym));
                        Ok(())
                    },
                    Err(e) => Err(failure(e)),
                }
            },
            CliCommand::Source(address) => {
                let ans = backend.source_location(address);
                proof {
                    let r1 = backend.received();
                    lemma_grown_refl(r1);
                    lemma_grown_push(r0, Request::SourceLocation { address, answer: ans }, r1, r1);
                }
                match ans {
                    Ok(src) => {
                        push_lines(out, source_lines(address, &src));
                        Ok(())
                    },
                    Err(e) => Err(failure(e)),
                }
            },
            CliCommand::Status => self.refresh_summary(backend, out),
            CliCommand::Refresh => {
                let ghost o0 = out@;
                let first = self.refresh_summary(backend, out);
                let ghost o1 = out@;
                let ghost r1 = backend.received();
                proof {
                    lemma_extends_refl(o1);
                    lemma_grown_refl(r1);
                    lemma_grown_trans(r0, r1, r1);
                }
                let r = match first {
                    Ok(()) => Self::print_threads(backend, out),
                    Err(m) => Err(m),
                };
                proof {
                    lemma_extends_trans(o0, o1, out@);
                    lemma_grown_trans(r0, r1, backend.received());
                }
                r
            },
            CliCommand::Detach => {
                let ans = backend.detach();
                proof {
                    let r1 = backend.received();
                    lemma_grown_refl(r1);
                    lemma_grown_push(r0, Request::Detach { answer: ans }, r1, r1);
                }
                match ans {
                    Ok(()) => {
                        self.attached_pid = None;
                        self.last_stop_reason = StopReason::Detached;
                        push_line(out, "detached from process".to_owned());
                        Ok(())
                    },
                    Err(e) => Err(failure(e)),
                }
            },
            CliCommand::Kill => {
                let ans = backend.kill();
                proof {
                    let r1 = backend.received();
                    lemma_grown_refl(r1);
                    lemma_grown_push(r0, Request::Kill { answer: ans }, r1, r1);
                }
                match ans {
                    Ok(()) => {
                        self.attached_pid = None;
                        self.last_stop_reason = StopReason::Exited(0);
                        push_line(out, "killed target".to_owned());
                        Ok(())
                    },
                    Err(e) => Err(failure(e)),
                }
            },
            CliCommand::Quit => {
                quit = true;
                Ok(())
            },
        };
        let r = if quit {
            Ok(ControlFlow::Exit)
        } else {
            match result {
                Ok(()) => Ok(ControlFlow::Continue),
                Err(m) => Err(m),
            }
        };
        proof {
            if result is Ok {
                assert(result->Ok_0 == ());
            }
        }
        assert(unit_of(r) == result);
        assert(command_asked(known, cmd, backend.received().skip(r0.len() as int), unit_of(r)));
        assert(command_done(*old(self), cmd, *self, r));
        r
    }
}

} // verus!
