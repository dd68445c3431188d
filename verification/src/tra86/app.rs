//! The tracer window's state: what each user action does to it and which
//! backend commands it sends, and how the worker's replies are folded in.
use vstd::prelude::*;
use crate::analysis::analyzers::string_views;
use crate::num::{dec_digits, fmt_dec, fmt_hex_addr, hex_addr, parse_radix, parse_uint, lemma_parse_uint_bound};
use crate::text::{chars_of, push_chars, string_of, trim, trim_chars, words, join};
use crate::tra86::model::{
    DisassemblyLine, InstructionRecord, RegisterBank, RegisterDiff, SymbolInfo, TargetBinary, TraceEvent, bank_diff, diff_views,
    dup_bytes, dup_opt_source, dup_trace, same_events,
};
use crate::tra86::analysis::{build_delta, compute_register_delta, mnemonic_class};
use crate::text::lower_seq;
use crate::bind_core::event::{epoch_now, wall_clock_nanos};
use crate::tra86::runtime::{
    BackendCommand, BackendSnapshot, WorkerMessage, analysis_lines_checked, analysis_lines_ok, heat_names, heat_window,
    hex_register_value, parse_hex_register, split_args, choice_name, choice_label,
};
use crate::tra86::cli::launches;
use crate::tra86::ui::{UiEvent, UiModel, SessionStatus, SessionPhase, BottomTab, BackendChoice};

verus! {

/// A program run recently: its path, its arguments and when (RFC 3339).
#[derive(Debug, Clone)]
pub struct RecentSession {
    pub program: String,
    pub args: Vec<String>,
    pub timestamp_utc: String,
}

/// The recently run programs, newest first.
#[derive(Debug, Clone)]
pub struct RecentSessions {
    pub items: Vec<RecentSession>,
}

/// What the window asks of its surroundings.
#[derive(Debug)]
pub enum AppAction {
    /// Hand a command to the backend worker.
    Send(BackendCommand),
    /// Write the recent sessions back to disk.
    SaveRecents,
    /// Leave the program.
    Exit,
}

/// What the surroundings knew when an event came: whether the trimmed
/// executable path names an existing file, and the file a picker returned.
pub struct EventContext {
    pub executable_exists: bool,
    pub picked_path: Option<String>,
}

/// The window: what it shows, the trace it has recorded, and what it
/// remembers of the previous stop.
pub struct Tra86App {
    pub ui: UiModel,
    pub previous_registers: Option<RegisterBank>,
    pub previous_sp: Option<i64>,
    pub last_traced_ip: Option<u64>,
    pub trace: Vec<TraceEvent>,
    pub recents: RecentSessions,
}

/// The recent sessions other than those of `program`, in order.
pub open spec fn recents_without(s: Seq<RecentSession>, program: Seq<char>) -> Seq<RecentSession>
    decreases s.len(),
{
    if s.len() == 0 {
        s
    } else {
        let rest = recents_without(s.drop_last(), program);
        if s.last().program@ != program {
            rest.push(s.last())
        } else {
            rest
        }
    }
}

/// The list after remembering a run of `program` with `args`: that run
/// first, then the others without the same program, twenty at most.
pub open spec fn remembered(old_items: Seq<RecentSession>, new_items: Seq<RecentSession>, program: Seq<char>, args: Seq<Seq<char>>) -> bool {
    let kept = recents_without(old_items, program);
    &&& new_items.len() == if kept.len() + 1 < 20 { kept.len() + 1 } else { 20 }
    &&& new_items[0].program@ == program
    &&& string_views(new_items[0].args@) == args
    &&& forall|i: int| 1 <= i < new_items.len() ==> #[trigger] new_items[i] == kept[i - 1]
}

/// The trace and the register memories are gone.
pub open spec fn trace_cleared(b: Tra86App) -> bool {
    &&& b.previous_registers is None
    &&& b.previous_sp is None
    &&& b.last_traced_ip is None
    &&& b.trace@.len() == 0
    &&& b.ui.trace@.len() == 0
    &&& b.ui.register_diffs@.len() == 0
}

/// The trace and the live views are gone.
pub open spec fn fresh(b: Tra86App) -> bool {
    &&& trace_cleared(b)
    &&& b.ui.threads@.len() == 0
    &&& b.ui.frames@.len() == 0
    &&& b.ui.registers is None
    &&& b.ui.memory_map_lines@.len() == 0
    &&& b.ui.memory_bytes@.len() == 0
}

/// `b` shows what `a` shows, apart from the trace, the live views, the
/// session's busy flag and last error, and the status line.
pub open spec fn ui_kept(a: UiModel, b: UiModel) -> bool {
    b == UiModel {
        trace: b.trace,
        register_diffs: b.register_diffs,
        threads: b.threads,
        frames: b.frames,
        registers: b.registers,
        memory_map_lines: b.memory_map_lines,
        memory_bytes: b.memory_bytes,
        status_line: b.status_line,
        session: SessionStatus { is_busy: b.session.is_busy, last_error: b.session.last_error, ..a.session },
        ..a
    }
}

/// A request `detail` is pending: busy, with no error.
pub open spec fn pending(b: UiModel, detail: Seq<char>) -> bool {
    b.session.is_busy && b.session.last_error is None && b.status_line@ == detail
}

/// What is not shown is unchanged.
pub open spec fn rest_kept(a: Tra86App, b: Tra86App) -> bool {
    &&& b.previous_registers == a.previous_registers
    &&& b.previous_sp == a.previous_sp
    &&& b.last_traced_ip == a.last_traced_ip
    &&& b.trace == a.trace
    &&& b.recents == a.recents
}

/// `b` is `a` with the error `msg` reported.
pub open spec fn rejected(a: Tra86App, b: Tra86App, msg: Seq<char>) -> bool {
    &&& b.ui.session.last_error matches Some(e) && e@ == msg
    &&& string_views(b.ui.output_lines@) == string_views(a.ui.output_lines@).push("error: "@ + msg)
    &&& b.ui == UiModel {
        session: SessionStatus { last_error: b.ui.session.last_error, ..a.ui.session },
        output_lines: b.ui.output_lines,
        ..a.ui
    }
    &&& rest_kept(a, b)
}

/// `b` is `a` with the request `detail` pending and nothing else changed.
pub open spec fn sent(a: Tra86App, b: Tra86App, detail: Seq<char>) -> bool {
    &&& pending(b.ui, detail)
    &&& b.ui == UiModel {
        status_line: b.ui.status_line,
        session: SessionStatus { is_busy: true, last_error: None, ..a.ui.session },
        ..a.ui
    }
    &&& rest_kept(a, b)
}

/// `b` is `a` with a fresh trace and live views and the request `detail`
/// pending.
pub open spec fn restarted(a: Tra86App, b: Tra86App, detail: Seq<char>) -> bool {
    &&& fresh(b)
    &&& ui_kept(a.ui, b.ui)
    &&& pending(b.ui, detail)
    &&& b.recents == a.recents
}

/// `w` with the words of `t`, each followed by a single space but the last.
fn join_words(w: &Vec<String>) -> (r: String)
    ensures
        r@ == join(string_views(w@), " "@),
{
    let mut out: Vec<char> = Vec::new();
    let mut i: usize = 0;
    while i < w.len()
        invariant
            i <= w@.len(),
            out@ == join(string_views(w@).take(i as int), " "@),
        decreases w@.len() - i,
    {
        let ghost before = out@;
        if i > 0 {
            out.push(' ');
        }
        let c = chars_of(w[i].as_str());
        push_chars(&mut out, c.as_slice());
        proof {
            let parts = string_views(w@).take(i + 1);
            assert(parts.drop_last() =~= string_views(w@).take(i as int));
            assert(parts.last() == w@[i as int]@);
            if i == 0 {
                assert(out@ =~= parts[0]);
            } else {
                assert(out@ =~= before + " "@ + parts.last()) by {
                    reveal_strlit(" ");
                }
            }
        }
        i = i + 1;
    }
    proof {
        assert(string_views(w@).take(w@.len() as int) =~= string_views(w@));
    }
    string_of(out.as_slice())
}

/// What `chrono::DateTime::from_timestamp(secs, nanos)` and `to_rfc3339`
/// of it print; `None` where `from_timestamp` finds the instant out of range.
pub uninterp spec fn rfc3339_text(secs: i64, nanos: u32) -> Option<Seq<char>>;

/// Calls `chrono::DateTime::from_timestamp` and prints the instant with
/// `DateTime::to_rfc3339`. The contract names the text and claims nothing
/// else of it.
#[verifier::external_body]
fn rfc3339_at(secs: i64, nanos: u32) -> (s: Option<String>)
    ensures
        match s {
            Some(t) => rfc3339_text(secs, nanos) == Some(t@),
            None => rfc3339_text(secs, nanos) is None,
        },
{
    match chrono::DateTime::<chrono::Utc>::from_timestamp(secs, nanos) {
        Some(d) => Some(d.to_rfc3339()),
        None => None,
    }
}

/// The current time as RFC 3339; empty when the clock reads before the Unix
/// epoch or beyond what can be written.
fn now_rfc3339() -> (s: String) {
    match epoch_now() {
        Some((secs, nanos)) => {
            if secs > 9_223_372_036_854_775_807u64 {
                return String::new();
            }
            match rfc3339_at(secs as i64, nanos) {
                Some(t) => t,
                None => String::new(),
            }
        },
        None => String::new(),
    }
}

fn dup_args(v: &Vec<String>) -> (r: Vec<String>)
    ensures
        r@ == v@,
{
    let mut out: Vec<String> = Vec::new();
    let mut i: usize = 0;
    while i < v.len()
        invariant
            i <= v@.len(),
            out@ == v@.take(i as int),
        decreases v@.len() - i,
    {
        out.push(v[i].clone());
        assert(out@ =~= v@.take(i + 1));
        i = i + 1;
    }
    assert(v@.take(v@.len() as int) =~= v@);
    out
}

impl Tra86App {
    /// The window as it opens: the most recent program and its arguments
    /// are filled in.
    pub fn new(recents: RecentSessions) -> (w: Tra86App)
        ensures
            w.recents == recents,
            w.trace@.len() == 0,
            w.previous_registers is None && w.previous_sp is None && w.last_traced_ip is None,
            recents.items@.len() > 0 ==> w.ui.executable_path@ == recents.items@[0].program@
                && w.ui.launch_args@ == join(string_views(recents.items@[0].args@), " "@),
            recents.items@.len() == 0 ==> w.ui.executable_path@.len() == 0,
    {
        let mut ui = UiModel::default();
        if recents.items.len() > 0 {
            ui.executable_path = recents.items[0].program.clone();
            ui.launch_args = join_words(&recents.items[0].args);
        }
        Tra86App { ui, previous_registers: None, previous_sp: None, last_traced_ip: None, trace: Vec::new(), recents }
    }

    /// Forgets the trace and what the last stop looked like.
    pub fn reset_trace_for_new_session(&mut self)
        ensures
            trace_cleared(*final(self)),
            final(self).ui == (UiModel { trace: final(self).ui.trace, register_diffs: final(self).ui.register_diffs, ..old(self).ui }),
            final(self).recents == old(self).recents,
    {
        self.previous_registers = None;
        self.previous_sp = None;
        self.last_traced_ip = None;
        self.trace.clear();
        self.ui.trace.clear();
        self.ui.register_diffs.clear();
    }

    /// Empties the views of a live process.
    pub fn clear_live_views(&mut self)
        ensures
            final(self).ui.threads@.len() == 0 && final(self).ui.frames@.len() == 0,
            final(self).ui.registers is None && final(self).ui.register_diffs@.len() == 0,
            final(self).ui.memory_map_lines@.len() == 0 && final(self).ui.memory_bytes@.len() == 0,
            final(self).ui == (UiModel {
                threads: final(self).ui.threads,
                frames: final(self).ui.frames,
                registers: None,
                register_diffs: final(self).ui.register_diffs,
                memory_map_lines: final(self).ui.memory_map_lines,
                memory_bytes: final(self).ui.memory_bytes,
                ..old(self).ui
            }),
            rest_kept(*old(self), *final(self)),
    {
        self.ui.threads.clear();
        self.ui.frames.clear();
        self.ui.registers = None;
        self.ui.register_diffs.clear();
        self.ui.memory_map_lines.clear();
        self.ui.memory_bytes.clear();
    }

    /// Marks the window busy with `detail` and hands back the command to send.
    pub fn queue_backend_command(&mut self, command: BackendCommand, detail: String) -> (act: AppAction)
        ensures
            act == AppAction::Send(command),
            sent(*old(self), *final(self), detail@),
    {
        self.ui.session.is_busy = true;
        self.ui.session.last_error = None;
        self.ui.status_line = detail;
        AppAction::Send(command)
    }

    /// Reports an error in the session and the output.
    pub fn push_ui_error(&mut self, message: &str)
        ensures
            rejected(*old(self), *final(self), message@),
    {
        self.ui.session.last_error = Some(message.to_owned());
        let mut v = chars_of("error: ");
        let m = chars_of(message);
        push_chars(&mut v, m.as_slice());
        let ghost before = string_views(self.ui.output_lines@);
        self.ui.output_lines.push(string_of(v.as_slice()));
        assert(string_views(self.ui.output_lines@) =~= before.push("error: "@ + message@));
    }

    /// Puts a run of `target` first among the recent sessions (dropping an
    /// older run of the same program, keeping twenty), stamped `timestamp`.
    /// Says whether the list changed; a run with no program is not kept.
    pub fn remember_session_at(&mut self, target: &TargetBinary, timestamp: String) -> (saved: bool)
        ensures
            saved == (target.program@.len() > 0),
            saved ==> remembered(old(self).recents.items@, final(self).recents.items@, target.program@, string_views(target.args@)),
            saved ==> final(self).recents.items@[0].timestamp_utc == timestamp,
            !saved ==> final(self).recents == old(self).recents,
            final(self).ui == old(self).ui,
            final(self).trace == old(self).trace,
            final(self).previous_registers == old(self).previous_registers,
            final(self).previous_sp == old(self).previous_sp,
            final(self).last_traced_ip == old(self).last_traced_ip,
    {
        let pc = chars_of(target.program.as_str());
        if pc.len() == 0 {
            return false;
        }
        let entry = RecentSession { program: target.program.clone(), args: dup_args(&target.args), timestamp_utc: timestamp };
        let mut old_items: Vec<RecentSession> = Vec::new();
        std::mem::swap(&mut old_items, &mut self.recents.items);
        let ghost src = old_items@;
        let ghost prog = target.program@;
        let n = old_items.len();
        assert(src.len() == n);
        let mut items: Vec<RecentSession> = Vec::new();
        items.push(entry);
        let mut i: usize = 0;
        while old_items.len() > 0
            invariant
                i <= src.len(),
                old_items@ == src.skip(i as int),
                src.len() <= usize::MAX,
                prog == target.program@,
                pc@ == prog,
                items@.len() == recents_without(src.take(i as int), prog).len() + 1,
                items@[0].program@ == prog,
                string_views(items@[0].args@) == string_views(target.args@),
                items@[0].timestamp_utc == timestamp,
                forall|k: int| 1 <= k < items@.len() ==> #[trigger] items@[k] == recents_without(src.take(i as int), prog)[k - 1],
            decreases old_items@.len(),
        {
            assert(i < src.len());
            assert(old_items@[0] == src[i as int]);
            proof {
                assert(src.take(i + 1).drop_last() =~= src.take(i as int));
                assert(src.take(i + 1).last() == src[i as int]);
            }
            let ghost before = items@;
            let x = old_items.remove(0);
            let xc = chars_of(x.program.as_str());
            let same = crate::text::chars_eq(xc.as_slice(), pc.as_slice());
            assert(x == src[i as int]);
            assert(same == (src[i as int].program@ == prog));
            let ghost t1 = src.take(i + 1);
            assert(t1.len() > 0);
            assert(t1.drop_last() == src.take(i as int));
            assert(t1.last() == src[i as int]);
            if !same {
                items.push(x);
                assert(recents_without(src.take(i + 1), prog) == recents_without(src.take(i as int), prog).push(src[i as int]));
            } else {
                assert(recents_without(src.take(i + 1), prog) == recents_without(src.take(i as int), prog));
            }
            proof {
                assert(old_items@ =~= src.skip(i + 1));
            }
            i = i + 1;
        }
        proof {
            assert(src.skip(i as int).len() == 0);
            assert(src.take(i as int) =~= src);
        }
        items.truncate(20);
        self.recents.items = items;
        true
    }
}

/// The address of the first line marked current.
pub open spec fn first_current_from(lines: Seq<DisassemblyLine>, i: int) -> Option<u64>
    decreases lines.len() - i,
{
    if i < 0 || i >= lines.len() {
        None
    } else if lines[i].is_current {
        Some(lines[i].address)
    } else {
        first_current_from(lines, i + 1)
    }
}

/// The line the window prints for "About".
pub open spec fn about_line() -> Seq<char> {
    "tra86: Rust-native Assembly Tracer Analyzer (LLDB backend active)"@
}

/// A command that the session state allows is sent with `detail`; else
/// `refusal` is reported and nothing is sent.
pub open spec fn gate(
    a: Tra86App,
    b: Tra86App,
    acts: Seq<AppAction>,
    allowed: bool,
    refusal: Seq<char>,
    cmd: BackendCommand,
    detail: Seq<char>,
) -> bool {
    if allowed {
        sent(a, b, detail) && acts == seq![AppAction::Send(cmd)]
    } else {
        rejected(a, b, refusal) && acts.len() == 0
    }
}

/// The memory view is moved to `x`: the base field shows it and the jump is
/// sent.
pub open spec fn memory_jumped(a: Tra86App, b: Tra86App, acts: Seq<AppAction>, x: u64) -> bool {
    &&& b.ui.memory_base_input@ == hex_addr(x as nat)
    &&& pending(b.ui, "Loading memory around "@ + hex_addr(x as nat))
    &&& b.ui == UiModel {
        memory_base_input: b.ui.memory_base_input,
        status_line: b.ui.status_line,
        session: SessionStatus { is_busy: true, last_error: None, ..a.ui.session },
        ..a.ui
    }
    &&& rest_kept(a, b)
    &&& acts == seq![AppAction::Send(BackendCommand::JumpMemory(x))]
}

/// Switching the backend starts afresh, and loads the configured program
/// into the new backend when there is one.
pub open spec fn backend_switched(a: Tra86App, c: BackendChoice, b: Tra86App, acts: Seq<AppAction>) -> bool {
    &&& fresh(b)
    &&& ui_kept(UiModel { backend_choice: c, ..a.ui }, b.ui)
    &&& b.ui.session.is_busy && b.ui.session.last_error is None
    &&& b.recents == a.recents
    &&& acts.len() >= 1 && acts[0] == AppAction::Send(BackendCommand::SwitchBackend(c))
    &&& if trim(a.ui.executable_path@).len() > 0 {
        &&& acts.len() == 2
        &&& acts[1] matches AppAction::Send(BackendCommand::OpenTarget(p)) && p@ == a.ui.executable_path@
        &&& b.ui.status_line@ == "Loading target into new backend"@
    } else {
        acts.len() == 1 && b.ui.status_line@ == "Switching backend to "@ + choice_name(c)
    }
}

/// A picked program is configured, noted, and loaded afresh.
pub open spec fn program_picked(a: Tra86App, p: Seq<char>, b: Tra86App, acts: Seq<AppAction>) -> bool {
    &&& fresh(b)
    &&& ui_kept(UiModel { executable_path: b.ui.executable_path, output_lines: b.ui.output_lines, ..a.ui }, b.ui)
    &&& b.ui.executable_path@ == p
    &&& string_views(b.ui.output_lines@) == string_views(a.ui.output_lines@).push("Configured target: "@ + p)
    &&& pending(b.ui, "Loading target"@)
    &&& b.recents == a.recents
    &&& acts.len() == 1
    &&& acts[0] matches AppAction::Send(BackendCommand::OpenTarget(q)) && q@ == p
}

/// A launch of the configured program with the configured arguments: the
/// run is remembered, the trace and views start afresh, the launch is sent.
pub open spec fn launched(a: Tra86App, b: Tra86App, acts: Seq<AppAction>) -> bool {
    let program = trim(a.ui.executable_path@);
    let args = words(a.ui.launch_args@);
    &&& fresh(b)
    &&& ui_kept(a.ui, b.ui)
    &&& pending(b.ui, "Launching target"@)
    &&& remembered(a.recents.items@, b.recents.items@, program, args)
    &&& acts.len() == 2
    &&& acts[0] == AppAction::SaveRecents
    &&& acts[1] matches AppAction::Send(BackendCommand::Launch(t)) && launches(t, (program, args))
}

/// What a user action does to the window (`a` before, `b` after) and what
/// it asks of the surroundings.
pub open spec fn event_done(a: Tra86App, ev: UiEvent, ctx: EventContext, b: Tra86App, acts: Seq<AppAction>) -> bool {
    let s = a.ui.session;
    let stopped = !s.is_busy && s.phase == SessionPhase::Stopped;
    let loaded = !s.is_busy && s.has_target && s.phase != SessionPhase::Running;
    let program = trim(a.ui.executable_path@);
    match ev {
        UiEvent::SetBackend(c) => backend_switched(a, c, b, acts),
        UiEvent::OpenExecutablePicker => match ctx.picked_path {
            Some(p) => program_picked(a, p@, b, acts),
            None => b == a && acts.len() == 0,
        },
        UiEvent::Launch => if s.is_busy {
            rejected(a, b, "Launch is not available while another backend operation is running"@) && acts.len() == 0
        } else if program.len() == 0 {
            rejected(a, b, "Set an executable path before launch"@) && acts.len() == 0
        } else if !ctx.executable_exists {
            rejected(a, b, "Executable path does not exist"@) && acts.len() == 0
        } else {
            launched(a, b, acts)
        },
        UiEvent::Attach => if !(!s.is_busy && !s.has_live_process && s.phase != SessionPhase::Running) {
            rejected(a, b, "Attach is not available in the current session state"@) && acts.len() == 0
        } else {
            match parse_uint(trim(a.ui.attach_pid@), 10, u32::MAX as nat) {
                Some(pid) => restarted(a, b, "Attaching to pid "@ + dec_digits(pid))
                    && acts == seq![AppAction::Send(BackendCommand::Attach(pid as u32))],
                None => rejected(a, b, "Attach PID is invalid"@) && acts.len() == 0,
            }
        },
        UiEvent::Continue => gate(a, b, acts, stopped, "Continue is not available in the current session state"@,
            BackendCommand::Continue, "Continuing execution"@),
        UiEvent::Pause => rejected(a, b, "Pause is not available in the current session state"@) && acts.len() == 0,
        UiEvent::StepInto => gate(a, b, acts, stopped, "Step into is not available in the current session state"@,
            BackendCommand::StepInto, "Stepping into instruction"@),
        UiEvent::StepOver => gate(a, b, acts, stopped, "Step over is not available in the current session state"@,
            BackendCommand::StepOver, "Stepping over instruction"@),
        UiEvent::StepOut => gate(a, b, acts, stopped, "Step out is not available in the current session state"@,
            BackendCommand::StepOut, "Stepping out of frame"@),
        UiEvent::Restart => if s.is_busy || !s.can_restart {
            rejected(a, b, "Restart is not available in the current session state"@) && acts.len() == 0
        } else if program.len() == 0 || !ctx.executable_exists {
            rejected(a, b, "Set a valid executable path before restart"@) && acts.len() == 0
        } else {
            restarted(a, b, "Restarting target"@) && acts.len() == 1
                && (acts[0] matches AppAction::Send(BackendCommand::Restart(t))
                && launches(t, (program, words(a.ui.launch_args@))))
        },
        UiEvent::Stop => gate(a, b, acts, stopped, "Stop is not available in the current session state"@,
            BackendCommand::Stop, "Stopping target"@),
        UiEvent::Refresh => gate(a, b, acts, loaded, "Refresh is not available until a target is loaded"@,
            BackendCommand::Refresh, "Refreshing state"@),
        UiEvent::ToggleBreakpoint(x) => gate(a, b, acts, loaded, "Breakpoints are not available until a target is loaded"@,
            BackendCommand::ToggleBreakpoint(x), "Toggling breakpoint at "@ + hex_addr(x as nat)),
        UiEvent::RemoveBreakpoint(id) => gate(a, b, acts, loaded, "Breakpoints are not available until a target is loaded"@,
            BackendCommand::RemoveBreakpoint(id), "Removing breakpoint #"@ + dec_digits(id as nat)),
        UiEvent::JumpMemory(x) => if stopped {
            memory_jumped(a, b, acts, x)
        } else {
            rejected(a, b, "Memory inspection requires a live stopped process"@) && acts.len() == 0
        },
        UiEvent::JumpDisassembly(x) => gate(a, b, acts, loaded, "Disassembly navigation requires a loaded target"@,
            BackendCommand::JumpDisassembly(x), "Jumping disassembly to "@ + hex_addr(x as nat)),
        UiEvent::ClearOutput => b.ui.output_lines@.len() == 0 && b.ui == (UiModel { output_lines: b.ui.output_lines, ..a.ui })
            && rest_kept(a, b) && acts.len() == 0,
        UiEvent::ClearTrace => trace_cleared(b)
            && b.ui == (UiModel { trace: b.ui.trace, register_diffs: b.ui.register_diffs, ..a.ui })
            && b.recents == a.recents && acts.len() == 0,
        UiEvent::SetBottomTab(t) => b.ui == (UiModel { bottom_tab: t, ..a.ui }) && rest_kept(a, b) && acts.len() == 0,
        UiEvent::JumpToCurrentInstruction => match first_current_from(a.ui.disassembly@, 0) {
            Some(x) => memory_jumped(a, b, acts, x),
            None => b == a && acts.len() == 0,
        },
        UiEvent::SubmitTerminalInput(_) => b == a && acts.len() == 0,
        UiEvent::ClearTerminal => b == a && acts.len() == 0,
        UiEvent::ShowAbout => string_views(b.ui.output_lines@) == string_views(a.ui.output_lines@).push(about_line())
            && b.ui == (UiModel { output_lines: b.ui.output_lines, ..a.ui }) && rest_kept(a, b) && acts.len() == 0,
        UiEvent::Quit => b == a && acts == seq![AppAction::Exit],
    }
}

fn text_of(prefix: &str, tail: &[char]) -> (r: String)
    ensures
        r@ == prefix@ + tail@,
{
    let mut v = chars_of(prefix);
    push_chars(&mut v, tail);
    string_of(v.as_slice())
}

fn first_current(lines: &Vec<DisassemblyLine>) -> (r: Option<u64>)
    ensures
        r == first_current_from(lines@, 0),
{
    let mut i: usize = 0;
    while i < lines.len()
        invariant
            i <= lines@.len(),
            first_current_from(lines@, 0) == first_current_from(lines@, i as int),
        decreases lines@.len() - i,
    {
        if lines[i].is_current {
            return Some(lines[i].address);
        }
        i = i + 1;
    }
    None
}

impl Tra86App {
    /// Sends `command` if `allowed`, else reports `refusal`.
    fn gated(&mut self, allowed: bool, refusal: &str, command: BackendCommand, detail: String) -> (acts: Vec<AppAction>)
        ensures
            gate(*old(self), *final(self), acts@, allowed, refusal@, command, detail@),
    {
        if allowed {
            let act = self.queue_backend_command(command, detail);
            let mut acts: Vec<AppAction> = Vec::new();
            acts.push(act);
            acts
        } else {
            self.push_ui_error(refusal);
            Vec::new()
        }
    }

    fn refused(&mut self, refusal: &str) -> (acts: Vec<AppAction>)
        ensures
            rejected(*old(self), *final(self), refusal@),
            acts@.len() == 0,
    {
        self.push_ui_error(refusal);
        Vec::new()
    }

    /// Moves the memory view to `x`.
    fn jump_memory(&mut self, x: u64) -> (acts: Vec<AppAction>)
        ensures
            memory_jumped(*old(self), *final(self), acts@, x),
    {
        let h = fmt_hex_addr(x);
        self.ui.memory_base_input = string_of(h.as_slice());
        let act = self.queue_backend_command(BackendCommand::JumpMemory(x), text_of("Loading memory around ", h.as_slice()));
        let mut acts: Vec<AppAction> = Vec::new();
        acts.push(act);
        acts
    }

    /// The configured program with the configured arguments.
    fn configured_target(&self) -> (t: TargetBinary)
        ensures
            launches(t, (trim(self.ui.executable_path@), words(self.ui.launch_args@))),
    {
        let pc = chars_of(self.ui.executable_path.as_str());
        let tc = trim_chars(pc.as_slice());
        TargetBinary { program: string_of(tc.as_slice()), args: split_args(self.ui.launch_args.as_str()), cwd: None, env: Vec::new() }
    }

    /// Carries out one user action on the window; `ctx` says what the
    /// surroundings knew. Returns what to ask of them, in order.
    pub fn handle_event(&mut self, event: UiEvent, ctx: EventContext) -> (acts: Vec<AppAction>)
        ensures
            event_done(*old(self), event, ctx, *final(self), acts@),
    {
        let pc = chars_of(self.ui.executable_path.as_str());
        let path = trim_chars(pc.as_slice());
        match event {
            UiEvent::SetBackend(choice) => {
                self.ui.backend_choice = choice;
                self.reset_trace_for_new_session();
                self.clear_live_views();
                let label = chars_of(choice_label(choice));
                let mut acts: Vec<AppAction> = Vec::new();
                let first = self.queue_backend_command(BackendCommand::SwitchBackend(choice), text_of("Switching backend to ", label.as_slice()));
                acts.push(first);
                if path.len() > 0 {
                    let second = self.queue_backend_command(
                        BackendCommand::OpenTarget(self.ui.executable_path.clone()),
                        "Loading target into new backend".to_owned(),
                    );
                    acts.push(second);
                }
                acts
            },
            UiEvent::OpenExecutablePicker => match ctx.picked_path {
                Some(p) => {
                    self.ui.executable_path = p.clone();
                    let c = chars_of(p.as_str());
                    let ghost before = string_views(self.ui.output_lines@);
                    self.ui.output_lines.push(text_of("Configured target: ", c.as_slice()));
                    assert(string_views(self.ui.output_lines@) =~= before.push("Configured target: "@ + p@));
                    self.reset_trace_for_new_session();
                    self.clear_live_views();
                    let act = self.queue_backend_command(BackendCommand::OpenTarget(p), "Loading target".to_owned());
                    let mut acts: Vec<AppAction> = Vec::new();
                    acts.push(act);
                    acts
                },
                None => Vec::new(),
            },
            UiEvent::Launch => {
                if self.ui.session.is_busy {
                    return self.refused("Launch is not available while another backend operation is running");
                }
                if path.len() == 0 {
                    return self.refused("Set an executable path before launch");
                }
                if !ctx.executable_exists {
                    return self.refused("Executable path does not exist");
                }
                let target = self.configured_target();
                let saved = self.remember_session_at(&target, now_rfc3339());
                self.reset_trace_for_new_session();
                self.clear_live_views();
                let act = self.queue_backend_command(BackendCommand::Launch(target), "Launching target".to_owned());
                let mut acts: Vec<AppAction> = Vec::new();
                if saved {
                    acts.push(AppAction::SaveRecents);
                }
                acts.push(act);
                acts
            },
            UiEvent::Attach => {
                if !self.ui.session.can_attach() {
                    return self.refused("Attach is not available in the current session state");
                }
                let ac = chars_of(self.ui.attach_pid.as_str());
                let at = trim_chars(ac.as_slice());
                proof {
                    lemma_parse_uint_bound(at@, 10, u32::MAX as nat);
                }
                match parse_radix(at.as_slice(), 10, u32::MAX as u64) {
                    Some(v) => {
                        let pid = v as u32;
                        self.reset_trace_for_new_session();
                        self.clear_live_views();
                        let d = fmt_dec(v);
                        let act = self.queue_backend_command(BackendCommand::Attach(pid), text_of("Attaching to pid ", d.as_slice()));
                        let mut acts: Vec<AppAction> = Vec::new();
                        acts.push(act);
                        acts
                    },
                    None => self.refused("Attach PID is invalid"),
                }
            },
            UiEvent::Continue => {
                let ok = self.ui.session.can_continue();
                self.gated(ok, "Continue is not available in the current session state", BackendCommand::Continue,
                    "Continuing execution".to_owned())
            },
            UiEvent::Pause => {
                let ok = self.ui.session.can_pause();
                self.gated(ok, "Pause is not available in the current session state", BackendCommand::Pause,
                    "Pausing execution".to_owned())
            },
            UiEvent::StepInto => {
                let ok = self.ui.session.can_step();
                self.gated(ok, "Step into is not available in the current session state", BackendCommand::StepInto,
                    "Stepping into instruction".to_owned())
            },
            UiEvent::StepOver => {
                let ok = self.ui.session.can_step();
                self.gated(ok, "Step over is not available in the current session state", BackendCommand::StepOver,
                    "Stepping over instruction".to_owned())
            },
            UiEvent::StepOut => {
                let ok = self.ui.session.can_step();
                self.gated(ok, "Step out is not available in the current session state", BackendCommand::StepOut,
                    "Stepping out of frame".to_owned())
            },
            UiEvent::Restart => {
                if self.ui.session.is_busy || !self.ui.session.can_restart {
                    return self.refused("Restart is not available in the current session state");
                }
                if path.len() == 0 || !ctx.executable_exists {
                    return self.refused("Set a valid executable path before restart");
                }
                let target = self.configured_target();
                self.reset_trace_for_new_session();
                self.clear_live_views();
                let act = self.queue_backend_command(BackendCommand::Restart(target), "Restarting target".to_owned());
                let mut acts: Vec<AppAction> = Vec::new();
                acts.push(act);
                acts
            },
            UiEvent::Stop => {
                let ok = self.ui.session.can_stop();
                self.gated(ok, "Stop is not available in the current session state", BackendCommand::Stop,
                    "Stopping target".to_owned())
            },
            UiEvent::Refresh => {
                let ok = self.ui.session.can_refresh();
                self.gated(ok, "Refresh is not available until a target is loaded", BackendCommand::Refresh,
                    "Refreshing state".to_owned())
            },
            UiEvent::ToggleBreakpoint(x) => {
                let ok = self.ui.session.can_toggle_breakpoint();
                let h = fmt_hex_addr(x);
                self.gated(ok, "Breakpoints are not available until a target is loaded", BackendCommand::ToggleBreakpoint(x),
                    text_of("Toggling breakpoint at ", h.as_slice()))
            },
            UiEvent::RemoveBreakpoint(id) => {
                let ok = self.ui.session.can_toggle_breakpoint();
                let d = fmt_dec(id);
                self.gated(ok, "Breakpoints are not available until a target is loaded", BackendCommand::RemoveBreakpoint(id),
                    text_of("Removing breakpoint #", d.as_slice()))
            },
            UiEvent::JumpMemory(x) => {
                if !self.ui.session.can_jump_memory() {
                    return self.refused("Memory inspection requires a live stopped process");
                }
                self.jump_memory(x)
            },
            UiEvent::JumpDisassembly(x) => {
                let ok = self.ui.session.can_refresh();
                let h = fmt_hex_addr(x);
                self.gated(ok, "Disassembly navigation requires a loaded target", BackendCommand::JumpDisassembly(x),
                    text_of("Jumping disassembly to ", h.as_slice()))
            },
            UiEvent::ClearOutput => {
                self.ui.output_lines.clear();
                Vec::new()
            },
            UiEvent::ClearTrace => {
                self.reset_trace_for_new_session();
                Vec::new()
            },
            UiEvent::SetBottomTab(tab) => {
                self.ui.bottom_tab = tab;
                Vec::new()
            },
            UiEvent::JumpToCurrentInstruction => match first_current(&self.ui.disassembly) {
                Some(x) => self.jump_memory(x),
                None => Vec::new(),
            },
            UiEvent::SubmitTerminalInput(_) => Vec::new(),
            UiEvent::ClearTerminal => Vec::new(),
            UiEvent::ShowAbout => {
                let ghost before = string_views(self.ui.output_lines@);
                self.ui.output_lines.push("tra86: Rust-native Assembly Tracer Analyzer (LLDB backend active)".to_owned());
                assert(string_views(self.ui.output_lines@) =~= before.push(about_line()));
                Vec::new()
            },
            UiEvent::Quit => {
                let mut acts: Vec<AppAction> = Vec::new();
                acts.push(AppAction::Exit);
                acts
            },
        }
    }
}

/// The index of the first line marked current from `i` on; -1 if none.
pub open spec fn first_current_index(lines: Seq<DisassemblyLine>, i: int) -> int
    decreases lines.len() - i,
{
    if i < 0 || i >= lines.len() {
        -1
    } else if lines[i].is_current {
        i
    } else {
        first_current_index(lines, i + 1)
    }
}

/// `r` records the instruction of line `l`, its function as its symbol.
pub open spec fn record_of(r: InstructionRecord, l: DisassemblyLine) -> bool {
    &&& r.address == l.address
    &&& r.bytes@ == l.bytes@
    &&& r.mnemonic == l.mnemonic
    &&& r.operands == l.operands
    &&& r.symbol == match l.function {
        Some(n) => Some(SymbolInfo { name: n, module: None, offset: 0 }),
        None => None,
    }
    &&& r.source == l.source
}

/// The stack pointer a bank shows in `rsp`.
pub open spec fn sp_of(regs: RegisterBank) -> Option<i64> {
    match hex_register_value(regs, "rsp"@) {
        Some(v) => Some((v as u64) as i64),
        None => None,
    }
}

/// How far the stack pointer moved (wrapping); 0 unless both are known.
pub open spec fn sp_change(cur: Option<i64>, prev: Option<i64>) -> i64 {
    match (cur, prev) {
        (Some(c), Some(p)) => vstd::wrapping::i64_specs::wrapping_sub(c, p),
        _ => 0,
    }
}

/// The changes of `cur` against the previous bank; none without one.
pub open spec fn regs_diff_ok(d: Seq<RegisterDiff>, cur: RegisterBank, prev: Option<RegisterBank>) -> bool {
    match prev {
        Some(p) => diff_views(d) == bank_diff(cur.registers@, p.registers@),
        None => d.len() == 0,
    }
}

/// The latest `n` events at most.
pub open spec fn last_n(t: Seq<TraceEvent>, n: int) -> Seq<TraceEvent> {
    if t.len() > n {
        t.skip(t.len() - n)
    } else {
        t
    }
}

/// The trace event for a stop at line `l`: with registers, their changes
/// and the stack movement; without, the first thread's number (else 1).
pub open spec fn event_for(
    e: TraceEvent,
    l: DisassemblyLine,
    snap: BackendSnapshot,
    prev_regs: Option<RegisterBank>,
    prev_sp: Option<i64>,
) -> bool {
    &&& record_of(e.instruction, l)
    &&& e.stop_reason == snap.stop_reason
    &&& match snap.registers {
        Some(r) => {
            &&& e.thread_id == r.thread_id
            &&& e.delta matches Some(d)
            &&& regs_diff_ok(d.changed_registers@, r, prev_regs)
            &&& d.stack_pointer_delta == sp_change(sp_of(r), prev_sp)
            &&& (d.control_flow, d.hints@) == mnemonic_class(lower_seq(l.mnemonic@))
            &&& d.memory_writes@.len() == 0
        },
        None => {
            &&& e.thread_id == if snap.threads@.len() > 0 { snap.threads@[0].id } else { 1 }
            &&& e.delta is None
        },
    }
}

/// What a snapshot from the worker does to the window (`a` before, `b`
/// after): the views show it; a dead process forgets its registers; a stop
/// at a new current line is added to the trace (the latest 2000 are kept);
/// the analysis is recomputed.
pub open spec fn snapshot_applied(a: Tra86App, snap: BackendSnapshot, b: Tra86App) -> bool {
    let live = snap.session.has_live_process;
    let prev_regs = if live { a.previous_registers } else { None };
    let prev_sp = if live { a.previous_sp } else { None };
    let k = first_current_index(snap.disassembly@, 0);
    &&& b.ui.status_line == snap.status_line
    &&& b.ui.session == SessionStatus { is_busy: false, ..snap.session }
    &&& b.ui.stop_reason == snap.stop_reason
    &&& b.ui.threads == snap.threads
    &&& b.ui.frames == snap.frames
    &&& b.ui.disassembly == snap.disassembly
    &&& b.ui.function_rows == snap.function_rows
    &&& b.ui.breakpoints == snap.breakpoints
    &&& b.ui.memory_map_lines == snap.memory_map_lines
    &&& b.ui.memory_bytes == snap.memory_bytes
    &&& string_views(b.ui.output_lines@) == string_views(a.ui.output_lines@) + string_views(snap.output_lines@)
    &&& match snap.registers {
        Some(r) => {
            &&& b.ui.registers == Some(r)
            &&& b.previous_registers matches Some(p) && p.registers@ == r.registers@ && p.thread_id == r.thread_id
                && p.bank_name == r.bank_name
            &&& regs_diff_ok(b.ui.register_diffs@, r, prev_regs)
            &&& b.previous_sp == sp_of(r)
        },
        None => {
            &&& b.ui.registers == if live { a.ui.registers } else { None }
            &&& b.previous_registers == prev_regs
            &&& b.previous_sp == prev_sp
            &&& live ==> b.ui.register_diffs == a.ui.register_diffs
            &&& !live ==> b.ui.register_diffs@.len() == 0
        },
    }
    &&& if k >= 0 && a.last_traced_ip != Some(snap.disassembly@[k].address) {
        &&& b.trace@.len() > 0
        &&& b.trace@ == last_n(a.trace@.push(b.trace@.last()), 2000)
        &&& event_for(b.trace@.last(), snap.disassembly@[k], snap, prev_regs, prev_sp)
        &&& b.last_traced_ip == Some(snap.disassembly@[k].address)
        &&& same_events(b.ui.trace@, b.trace@)
    } else {
        b.trace == a.trace && b.last_traced_ip == a.last_traced_ip && b.ui.trace == a.ui.trace
    }
    &&& if heat_names(b.trace@, heat_window(b.trace@)).len() < u64::MAX {
        analysis_lines_ok(string_views(b.ui.analysis_lines@), b.ui.disassembly@, b.trace@)
    } else {
        b.ui.analysis_lines == a.ui.analysis_lines
    }
    &&& b.recents == a.recents
    &&& b.ui == UiModel {
        status_line: b.ui.status_line,
        session: b.ui.session,
        stop_reason: b.ui.stop_reason,
        threads: b.ui.threads,
        frames: b.ui.frames,
        disassembly: b.ui.disassembly,
        function_rows: b.ui.function_rows,
        breakpoints: b.ui.breakpoints,
        memory_map_lines: b.ui.memory_map_lines,
        memory_bytes: b.ui.memory_bytes,
        output_lines: b.ui.output_lines,
        analysis_lines: b.ui.analysis_lines,
        registers: b.ui.registers,
        register_diffs: b.ui.register_diffs,
        trace: b.ui.trace,
        ..a.ui
    }
}

/// What a reply from the worker does to the window.
pub open spec fn message_applied(a: Tra86App, m: WorkerMessage, b: Tra86App) -> bool {
    match m {
        WorkerMessage::Snapshot(snap) => snapshot_applied(a, snap, b),
        WorkerMessage::Error(e) => {
            &&& b.ui.session == SessionStatus { is_busy: false, last_error: Some(e), ..a.ui.session }
            &&& string_views(b.ui.output_lines@) == string_views(a.ui.output_lines@).push("error: "@ + e@)
            &&& b.ui == UiModel { session: b.ui.session, output_lines: b.ui.output_lines, ..a.ui }
            &&& rest_kept(a, b)
        },
    }
}

fn current_index(lines: &Vec<DisassemblyLine>) -> (r: Option<usize>)
    ensures
        match r {
            Some(i) => i == first_current_index(lines@, 0) && i < lines@.len(),
            None => first_current_index(lines@, 0) == -1,
        },
{
    let mut i: usize = 0;
    while i < lines.len()
        invariant
            i <= lines@.len(),
            first_current_index(lines@, 0) == first_current_index(lines@, i as int),
        decreases lines@.len() - i,
    {
        if lines[i].is_current {
            return Some(i);
        }
        i = i + 1;
    }
    None
}

fn record_for(l: &DisassemblyLine) -> (r: InstructionRecord)
    ensures
        record_of(r, *l),
{
    InstructionRecord {
        address: l.address,
        bytes: dup_bytes(&l.bytes),
        mnemonic: l.mnemonic.clone(),
        operands: l.operands.clone(),
        symbol: match &l.function {
            Some(n) => Some(SymbolInfo { name: n.clone(), module: None, offset: 0 }),
            None => None,
        },
        source: dup_opt_source(&l.source),
    }
}

/// Keeps the latest `n` events.
fn keep_last(t: &mut Vec<TraceEvent>, n: usize)
    ensures
        final(t)@ == last_n(old(t)@, n as int),
{
    let ghost src = t@;
    let len0 = t.len();
    assert(src.len() == len0);
    let mut k: usize = 0;
    while t.len() > n
        invariant
            t@ == src.skip(k as int),
            k <= src.len(),
            src.len() <= usize::MAX,
            k > 0 ==> t@.len() >= n,
        decreases t@.len(),
    {
        t.remove(0);
        assert(t@ =~= src.skip(k + 1));
        k = k + 1;
    }
    proof {
        if src.len() > n {
            assert(k == src.len() - n);
        } else {
            assert(k == 0);
            assert(src.skip(0) =~= src);
        }
    }
}

fn append_lines(dst: &mut Vec<String>, src: &Vec<String>)
    ensures
        string_views(final(dst)@) == string_views(old(dst)@) + string_views(src@),
{
    let ghost before_out = string_views(dst@);
    let mut j: usize = 0;
    while j < src.len()
        invariant
            j <= src@.len(),
            string_views(dst@) == before_out + string_views(src@).take(j as int),
        decreases src@.len() - j,
    {
        let ghost b2 = string_views(dst@);
        dst.push(src[j].clone());
        assert(string_views(dst@) =~= b2.push(src@[j as int]@));
        assert(string_views(src@).take(j + 1) =~= string_views(src@).take(j as int).push(src@[j as int]@));
        j = j + 1;
    }
    assert(string_views(src@).take(src@.len() as int) =~= string_views(src@));
}

fn dup_diffs(v: &Vec<RegisterDiff>) -> (r: Vec<RegisterDiff>)
    ensures
        r@ == v@,
{
    let mut out: Vec<RegisterDiff> = Vec::new();
    let mut i: usize = 0;
    while i < v.len()
        invariant
            i <= v@.len(),
            out@ == v@.take(i as int),
        decreases v@.len() - i,
    {
        out.push(v[i].dup());
        assert(out@ =~= v@.take(i + 1));
        i = i + 1;
    }
    assert(v@.take(v@.len() as int) =~= v@);
    out
}

impl Tra86App {
    /// Folds a reply from the backend worker into the window.
    pub fn apply_worker_message(&mut self, message: WorkerMessage)
        ensures
            message_applied(*old(self), message, *final(self)),
    {
        match message {
            WorkerMessage::Snapshot(snapshot) => self.apply_snapshot(snapshot),
            WorkerMessage::Error(error) => {
                self.ui.session.is_busy = false;
                let e = chars_of(error.as_str());
                self.ui.session.last_error = Some(error);
                let ghost before = string_views(self.ui.output_lines@);
                self.ui.output_lines.push(text_of("error: ", e.as_slice()));
                assert(string_views(self.ui.output_lines@) =~= before.push("error: "@ + e@));
            },
        }
    }

    fn apply_snapshot(&mut self, snapshot: BackendSnapshot)
        ensures
            snapshot_applied(*old(self), snapshot, *final(self)),
    {
        let ghost snap = snapshot;
        let ghost a = *self;
        let BackendSnapshot {
            status_line,
            session,
            stop_reason,
            threads,
            frames,
            disassembly,
            function_rows,
            registers,
            breakpoints,
            memory_map_lines,
            memory_bytes,
            output_lines,
        } = snapshot;
        self.ui.status_line = status_line;
        self.ui.session = session;
        self.ui.session.is_busy = false;
        self.ui.stop_reason = stop_reason;
        self.ui.threads = threads;
        self.ui.frames = frames;
        self.ui.disassembly = disassembly;
        self.ui.function_rows = function_rows;
        self.ui.breakpoints = breakpoints;
        self.ui.memory_map_lines = memory_map_lines;
        self.ui.memory_bytes = memory_bytes;
        append_lines(&mut self.ui.output_lines, &output_lines);
        if !self.ui.session.has_live_process {
            self.ui.registers = None;
            self.ui.register_diffs.clear();
            self.previous_registers = None;
            self.previous_sp = None;
        }
        let ghost prev_regs = self.previous_registers;
        let ghost prev_sp = self.previous_sp;
        let current = current_index(&self.ui.disassembly);
        match registers {
            Some(regs) => {
                let diff = match &self.previous_registers {
                    Some(p) => compute_register_delta(&regs, Some(p)),
                    None => compute_register_delta(&regs, None),
                };
                self.ui.register_diffs = dup_diffs(&diff);
                let current_sp: Option<i64> = match parse_hex_register(&regs, "rsp") {
                    Some(v) => Some(#[verifier::truncate] (v as i64)),
                    None => None,
                };
                let sp_delta: i64 = match (current_sp, self.previous_sp) {
                    (Some(c), Some(p)) => c.wrapping_sub(p),
                    _ => 0,
                };
                if let Some(i) = current {
                    let addr = self.ui.disassembly[i].address;
                    if self.last_traced_ip != Some(addr) {
                        let record = record_for(&self.ui.disassembly[i]);
                        let delta = build_delta(self.ui.disassembly[i].mnemonic.as_str(), diff, sp_delta, Vec::new());
                        let event = TraceEvent {
                            timestamp: wall_clock_nanos(),
                            thread_id: regs.thread_id,
                            instruction: record,
                            stop_reason: self.ui.stop_reason.dup(),
                            delta: Some(delta),
                        };
                        self.push_trace(event);
                        self.last_traced_ip = Some(addr);
                    }
                }
                self.previous_sp = current_sp;
                self.previous_registers = Some(regs.dup());
                self.ui.registers = Some(regs);
            },
            None => {
                if let Some(i) = current {
                    let addr = self.ui.disassembly[i].address;
                    if self.last_traced_ip != Some(addr) {
                        let record = record_for(&self.ui.disassembly[i]);
                        let tid: u64 = if self.ui.threads.len() > 0 { self.ui.threads[0].id } else { 1 };
                        let event = TraceEvent {
                            timestamp: wall_clock_nanos(),
                            thread_id: tid,
                            instruction: record,
                            stop_reason: self.ui.stop_reason.dup(),
                            delta: None,
                        };
                        self.push_trace(event);
                        self.last_traced_ip = Some(addr);
                    }
                }
            },
        }
        if let Some(lines) = analysis_lines_checked(self.ui.disassembly.as_slice(), self.trace.as_slice()) {
            self.ui.analysis_lines = lines;
        }
    }

    /// Adds an event to the trace, keeping the latest 2000, and shows it.
    fn push_trace(&mut self, event: TraceEvent)
        ensures
            final(self).trace@.len() > 0,
            final(self).trace@.last() == event,
            final(self).trace@ == last_n(old(self).trace@.push(event), 2000),
            same_events(final(self).ui.trace@, final(self).trace@),
            final(self).ui == (UiModel { trace: final(self).ui.trace, ..old(self).ui }),
            final(self).previous_registers == old(self).previous_registers,
            final(self).previous_sp == old(self).previous_sp,
            final(self).last_traced_ip == old(self).last_traced_ip,
            final(self).recents == old(self).recents,
    {
        self.trace.push(event);
        keep_last(&mut self.trace, 2000);
        self.ui.trace = dup_trace(&self.trace);
    }
}

} // verus!
