//! What the LLDB backend keeps between requests, and how each driver reply
//! changes it: the lifecycle, the pending events, the breakpoint list and
//! the last stop.
use vstd::prelude::*;
use crate::bind_core::address::Address;
use crate::bind_core::arch::{Architecture, arch_of_token};
use crate::bind_core::capability::Capabilities;
use crate::bind_core::error::BindError;
use crate::bind_core::event::DebugEvent;
use crate::bind_core::id::{BreakpointId, Pid, ThreadId};
use crate::bind_core::arch::Endianness;
use crate::bind_core::model::{Breakpoint, BreakpointLocation, ProcessInfo, ProcessLifecycle, ResolvedLocation, SourceLocation, StopReason, Symbol, bp_view, bp_views};
use crate::lldb::replies::{items_at, opt_view, u64_or};
use crate::text::{chars_of, is_word, trim, trim_chars};
use crate::lldb::decode::{arch_from_triple, parse_stop_reason, stop_reason_read};
use crate::lldb::json::{JsonValue, bool_at, bool_field, i64_at, i64_field, json_get, str_at, str_field, u64_at, u64_field};
use crate::num::{dec_digits, fmt_dec};
use crate::text::{pieces, push_chars, push_str, string_of};

verus! {

/// The backend's state apart from its connection to the driver.
pub struct LldbState {
    pub arch: Architecture,
    pub program: Option<String>,
    pub lifecycle: ProcessLifecycle,
    /// Events not yet handed out, oldest first.
    pub events: Vec<DebugEvent>,
    pub breakpoints: Vec<Breakpoint>,
    pub selected_thread: Option<ThreadId>,
    pub last_pc: Option<Address>,
    pub exit_code: Option<i32>,
}

/// The events a stop adds: a breakpoint hit when the reason is one, the
/// single step when the stop ends a step from `from`, then the stop.
pub open spec fn stop_events(thread: ThreadId, reason: StopReason, pc: Option<Address>, from: Option<Address>) -> Seq<DebugEvent> {
    (match reason {
        StopReason::Breakpoint(bp) => seq![DebugEvent::BreakpointHit { breakpoint: bp, thread }],
        _ => Seq::empty(),
    }) + (match from {
        Some(f) => seq![DebugEvent::InstructionStepped {
            thread,
            from: Some(f),
            to: match pc {
                Some(p) => p,
                None => Address(0),
            },
        }],
        None => Seq::empty(),
    }) + seq![DebugEvent::Stopped { thread, reason, pc }]
}

/// The stop label of a stop-state object, `none` when it has none.
pub open spec fn reason_label(v: JsonValue) -> Seq<char> {
    match str_field(v, "reason"@) {
        Some(s) => s,
        None => "none"@,
    }
}

/// What a driver stop-state object does: an exit ends the process; a stop
/// records the thread, pc and reason and queues its events; anything else
/// changes nothing.
pub open spec fn stop_applied(a: LldbState, v: JsonValue, from: Option<Address>, b: LldbState) -> bool {
    match i64_field(v, "exited"@) {
        Some(code) => {
            &&& b == (LldbState { lifecycle: ProcessLifecycle::Exited, exit_code: Some(code as i32), events: b.events, ..a })
            &&& b.events@ == a.events@.push(DebugEvent::ProcessExited { code: code as i32 })
        },
        None => if bool_field(v, "stopped"@) == Some(true) {
            let thread = ThreadId(match u64_field(v, "thread"@) {
                Some(t) => t,
                None => 0,
            });
            let pc = match u64_field(v, "pc"@) {
                Some(p) => Some(Address(p)),
                None => None,
            };
            &&& b == (LldbState {
                lifecycle: ProcessLifecycle::Stopped,
                selected_thread: Some(thread),
                last_pc: pc,
                events: b.events,
                ..a
            })
            &&& exists|reason: StopReason| #[trigger] stop_reason_read(reason_label(v), reason)
                && b.events@ == a.events@ + stop_events(thread, reason, pc, from)
        } else {
            b == a
        },
    }
}

/// The position of the first breakpoint with `id`.
pub open spec fn index_of_breakpoint(bs: Seq<Breakpoint>, id: BreakpointId) -> Option<int> {
    if exists|k: int| 0 <= k < bs.len() && bs[k].id == id {
        Some(choose|k: int| 0 <= k < bs.len() && bs[k].id == id && forall|j: int| 0 <= j < k ==> bs[j].id != id)
    } else {
        None
    }
}

proof fn lemma_index_of_breakpoint(bs: Seq<Breakpoint>, id: BreakpointId, k: int)
    requires
        0 <= k < bs.len(),
        bs[k].id == id,
        forall|j: int| 0 <= j < k ==> (#[trigger] bs[j]).id != id,
    ensures
        index_of_breakpoint(bs, id) == Some(k),
{
    let c = choose|c: int| 0 <= c < bs.len() && bs[c].id == id && forall|j: int| 0 <= j < c ==> bs[j].id != id;
    assert(0 <= c < bs.len() && bs[c].id == id && forall|j: int| 0 <= j < c ==> bs[j].id != id);
    if c < k {
        assert(bs[c].id != id);
    } else if c > k {
        assert(bs[k].id != id);
    }
}

proof fn lemma_no_breakpoint(bs: Seq<Breakpoint>, id: BreakpointId)
    requires
        forall|j: int| 0 <= j < bs.len() ==> (#[trigger] bs[j]).id != id,
    ensures
        index_of_breakpoint(bs, id) is None,
{
}

/// One resolved address of an `add_breakpoint` reply.
pub open spec fn resolved_read(r: JsonValue, rl: ResolvedLocation) -> bool {
    let address = Address(u64_or(r, "address"@, 0));
    &&& rl.address == address
    &&& match rl.symbol {
        Some(sym) => str_field(r, "function"@) == Some(sym.name@) && sym.demangled is None && sym.module is None
            && sym.start == Some(address) && sym.offset == 0,
        None => str_field(r, "function"@) is None,
    }
    &&& match (str_field(r, "file"@), u64_field(r, "line"@)) {
        (Some(file), Some(line)) => rl.source matches Some(loc) && loc.file@ == file && loc.line == line as u32
            && loc.column is None,
        _ => rl.source is None,
    }
}

impl LldbState {
    pub fn new() -> (s: LldbState)
        ensures
            s.arch == Architecture::Unknown,
            s.program is None,
            s.lifecycle == ProcessLifecycle::Idle,
            s.events@.len() == 0,
            s.breakpoints@.len() == 0,
            s.selected_thread is None,
            s.last_pc is None,
            s.exit_code is None,
    {
        LldbState {
            arch: Architecture::Unknown,
            program: None,
            lifecycle: ProcessLifecycle::Idle,
            events: Vec::new(),
            breakpoints: Vec::new(),
            selected_thread: None,
            last_pc: None,
            exit_code: None,
        }
    }

    /// Translates a driver stop-state object into events and the lifecycle.
    pub fn emit_stop(&mut self, v: &JsonValue, from: Option<Address>)
        ensures
            stop_applied(*old(self), *v, from, *final(self)),
    {
        match i64_at(v, "exited") {
            Some(code) => {
                self.lifecycle = ProcessLifecycle::Exited;
                self.exit_code = Some(code as i32);
                self.events.push(DebugEvent::ProcessExited { code: code as i32 });
                return;
            },
            None => {},
        }
        if bool_at(v, "stopped") == Some(true) {
            let thread = ThreadId(match u64_at(v, "thread") {
                Some(t) => t,
                None => 0,
            });
            let label = match str_at(v, "reason") {
                Some(s) => s,
                None => "none".to_owned(),
            };
            let reason = parse_stop_reason(label.as_str());
            let pc = match u64_at(v, "pc") {
                Some(p) => Some(Address(p)),
                None => None,
            };
            let ghost r0 = reason;
            let ghost e0 = self.events@;
            self.lifecycle = ProcessLifecycle::Stopped;
            self.selected_thread = Some(thread);
            self.last_pc = pc;
            match &reason {
                StopReason::Breakpoint(bp) => {
                    self.events.push(DebugEvent::BreakpointHit { breakpoint: *bp, thread });
                },
                _ => {},
            }
            match from {
                Some(f) => {
                    let to = match pc {
                        Some(p) => p,
                        None => Address(0),
                    };
                    self.events.push(DebugEvent::InstructionStepped { thread, from: Some(f), to });
                },
                None => {},
            }
            self.events.push(DebugEvent::Stopped { thread, reason, pc });
            assert(self.events@ =~= e0 + stop_events(thread, r0, pc, from));
            assert(stop_reason_read(reason_label(*v), r0));
        }
    }

    /// After `open_target` for `program`: the architecture from the reply's
    /// triple when it has one, the program, a target-loaded event, and the
    /// process about to launch.
    pub fn target_opened(&mut self, program: &str, opened: &JsonValue)
        ensures
            final(self).arch == match str_field(*opened, "triple"@) {
                Some(t) => arch_of_token(pieces(t, '-')[0]),
                None => old(self).arch,
            },
            final(self).program matches Some(p) && p@ == program@,
            final(self).lifecycle == ProcessLifecycle::Launching,
            final(self).events@.len() == old(self).events@.len() + 1,
            final(self).events@.drop_last() == old(self).events@,
            final(self).events@.last() matches DebugEvent::TargetLoaded { program: p, arch }
                && p@ == program@ && arch == final(self).arch,
            final(self).breakpoints == old(self).breakpoints,
            final(self).selected_thread == old(self).selected_thread,
            final(self).last_pc == old(self).last_pc,
            final(self).exit_code == old(self).exit_code,
    {
        match str_at(opened, "triple") {
            Some(t) => {
                self.arch = arch_from_triple(t.as_str());
            },
            None => {},
        }
        self.program = Some(program.to_owned());
        let ghost before = self.events@;
        self.events.push(DebugEvent::TargetLoaded { program: program.to_owned(), arch: self.arch });
        assert(self.events@.drop_last() =~= before);
        self.lifecycle = ProcessLifecycle::Launching;
    }

    /// After a launch: the launched event when the pid is known, then the
    /// stop the launch ended in.
    pub fn launched(&mut self, pid: Option<u64>, stop: &JsonValue)
        ensures
            exists|mid: LldbState|
                #[trigger] stop_applied(mid, *stop, None, *final(self))
                && mid == (LldbState { events: mid.events, ..*old(self) })
                && mid.events@ == match pid {
                    Some(p) => old(self).events@.push(DebugEvent::ProcessLaunched { pid: Pid(p as u32) }),
                    None => old(self).events@,
                },
    {
        match pid {
            Some(p) => {
                self.events.push(DebugEvent::ProcessLaunched { pid: Pid(p as u32) });
            },
            None => {},
        }
        let ghost mid = *self;
        self.emit_stop(stop, None);
        assert(stop_applied(mid, *stop, None, *self));
    }

    /// After attaching to `pid`: the attached event, then the stop.
    pub fn attached(&mut self, pid: Pid, stop: &JsonValue)
        ensures
            exists|mid: LldbState|
                #[trigger] stop_applied(mid, *stop, None, *final(self))
                && mid == (LldbState { events: mid.events, ..*old(self) })
                && mid.events@ == old(self).events@.push(DebugEvent::ProcessAttached { pid }),
    {
        self.events.push(DebugEvent::ProcessAttached { pid });
        let ghost mid = *self;
        self.emit_stop(stop, None);
        assert(stop_applied(mid, *stop, None, *self));
    }

    /// After a detach.
    pub fn detached(&mut self)
        ensures
            *final(self) == (LldbState { lifecycle: ProcessLifecycle::Detached, events: final(self).events, ..*old(self) }),
            final(self).events@ == old(self).events@.push(DebugEvent::ProcessDetached),
    {
        self.lifecycle = ProcessLifecycle::Detached;
        self.events.push(DebugEvent::ProcessDetached);
    }

    /// After the process was killed: exited, with the last known exit code
    /// (0 when none).
    pub fn terminated(&mut self)
        ensures
            *final(self) == (LldbState { lifecycle: ProcessLifecycle::Exited, events: final(self).events, ..*old(self) }),
            final(self).events@ == old(self).events@.push(DebugEvent::ProcessExited {
                code: match old(self).exit_code {
                    Some(c) => c,
                    None => 0,
                },
            }),
    {
        self.lifecycle = ProcessLifecycle::Exited;
        let code = match self.exit_code {
            Some(c) => c,
            None => 0,
        };
        self.events.push(DebugEvent::ProcessExited { code });
    }

    /// Before a resume (or a run-to) is sent.
    pub fn resuming(&mut self)
        ensures
            *final(self) == (LldbState { events: final(self).events, ..*old(self) }),
            final(self).events@ == old(self).events@.push(DebugEvent::Continued),
    {
        self.events.push(DebugEvent::Continued);
    }

    /// Hands out the pending events, oldest first.
    pub fn take_events(&mut self) -> (r: Vec<DebugEvent>)
        ensures
            r@ == old(self).events@,
            *final(self) == (LldbState { events: final(self).events, ..*old(self) }),
            final(self).events@.len() == 0,
    {
        let mut out: Vec<DebugEvent> = Vec::new();
        std::mem::swap(&mut out, &mut self.events);
        out
    }

    /// After a breakpoint was removed.
    pub fn breakpoint_removed(&mut self, id: BreakpointId)
        ensures
            *final(self) == (LldbState { breakpoints: final(self).breakpoints, ..*old(self) }),
            bp_views(final(self).breakpoints@) == bp_views(old(self).breakpoints@.filter(|b: Breakpoint| b.id != id)),
    {
        let mut kept: Vec<Breakpoint> = Vec::new();
        let mut i: usize = 0;
        while i < self.breakpoints.len()
            invariant
                i <= self.breakpoints@.len(),
                self.breakpoints@ == old(self).breakpoints@,
                bp_views(kept@) == bp_views(self.breakpoints@.take(i as int).filter(|b: Breakpoint| b.id != id)),
            decreases self.breakpoints@.len() - i,
        {
            proof {
                let t = self.breakpoints@.take(i as int + 1);
                assert(t.drop_last() =~= self.breakpoints@.take(i as int));
                reveal(Seq::filter);
            }
            if self.breakpoints[i].id != id {
                let ghost before = kept@;
                kept.push(self.breakpoints[i].dup());
                assert(bp_views(kept@) =~= bp_views(before).push(bp_view(self.breakpoints@[i as int])));
            }
            i = i + 1;
        }
        assert(self.breakpoints@.take(i as int) =~= self.breakpoints@);
        self.breakpoints = kept;
    }

    /// Enables or disables a known breakpoint.
    pub fn enable_breakpoint(&mut self, id: BreakpointId, enabled: bool) -> (r: Result<(), BindError>)
        ensures
            match index_of_breakpoint(old(self).breakpoints@, id) {
                Some(k) => {
                    &&& r is Ok
                    &&& *final(self) == (LldbState { breakpoints: final(self).breakpoints, ..*old(self) })
                    &&& final(self).breakpoints@ == old(self).breakpoints@.update(
                        k,
                        Breakpoint { enabled, ..old(self).breakpoints@[k] },
                    )
                },
                None => {
                    &&& *final(self) == *old(self)
                    &&& r matches Err(BindError::UserInput(m)) && m@ == "no breakpoint #"@ + dec_digits(id.0 as nat)
                },
            },
    {
        let mut i: usize = 0;
        while i < self.breakpoints.len()
            invariant
                i <= self.breakpoints@.len(),
                *self == *old(self),
                forall|j: int| 0 <= j < i ==> (#[trigger] self.breakpoints@[j]).id != id,
            decreases self.breakpoints@.len() - i,
        {
            if self.breakpoints[i].id == id {
                proof {
                    lemma_index_of_breakpoint(self.breakpoints@, id, i as int);
                }
                let ghost before = self.breakpoints@;
                let mut b = self.breakpoints.remove(i);
                b.enabled = enabled;
                self.breakpoints.insert(i, b);
                assert(self.breakpoints@ =~= before.update(i as int, Breakpoint { enabled, ..before[i as int] }));
                return Ok(());
            }
            i = i + 1;
        }
        proof {
            lemma_no_breakpoint(self.breakpoints@, id);
        }
        let mut m: Vec<char> = Vec::new();
        push_str(&mut m, "no breakpoint #");
        let d = fmt_dec(id.0);
        push_chars(&mut m, d.as_slice());
        Err(BindError::UserInput(string_of(m.as_slice())))
    }


    /// After `add_breakpoint` for `location`: the breakpoint the reply
    /// describes, one resolved event per resolved address, and the
    /// breakpoint remembered.
    pub fn breakpoint_added(&mut self, location: &BreakpointLocation, condition: Option<&str>, resp: &JsonValue) -> (bp: Breakpoint)
        ensures
            bp.id == BreakpointId(u64_or(*resp, "id"@, 0)),
            bp.location == *location,
            bp.enabled,
            bp.hit_count == 0,
            opt_view(bp.condition) == match condition {
                Some(c) => Some(c@),
                None => None,
            },
            bp.resolved@.len() == items_at(*resp, "resolved"@).len(),
            forall|i: int| 0 <= i < bp.resolved@.len() ==> resolved_read(items_at(*resp, "resolved"@)[i], #[trigger] bp.resolved@[i]),
            final(self).events@ == old(self).events@ + bp.resolved@.map_values(
                |r: ResolvedLocation| DebugEvent::BreakpointResolved { breakpoint: bp.id, address: r.address },
            ),
            bp_views(final(self).breakpoints@) == bp_views(old(self).breakpoints@).push(bp_view(bp)),
            *final(self) == (LldbState { events: final(self).events, breakpoints: final(self).breakpoints, ..*old(self) }),
    {
        let id = BreakpointId(match u64_at(resp, "id") {
            Some(n) => n,
            None => 0,
        });
        let empty: Vec<JsonValue> = Vec::new();
        let items: &[JsonValue] = match resp.get("resolved") {
            Some(x) => x.items(),
            None => empty.as_slice(),
        };
        let mut resolved: Vec<ResolvedLocation> = Vec::new();
        let ghost e0 = self.events@;
        let mut i: usize = 0;
        while i < items.len()
            invariant
                i <= items@.len(),
                items@ == items_at(*resp, "resolved"@),
                resolved@.len() == i,
                forall|j: int| 0 <= j < i ==> resolved_read(items@[j], #[trigger] resolved@[j]),
                self.events@ == e0 + resolved@.map_values(
                    |r: ResolvedLocation| DebugEvent::BreakpointResolved { breakpoint: id, address: r.address },
                ),
                *self == (LldbState { events: self.events, ..*old(self) }),
            decreases items@.len() - i,
        {
            let r = &items[i];
            let address = Address(match u64_at(r, "address") {
                Some(n) => n,
                None => 0,
            });
            let symbol = match str_at(r, "function") {
                Some(name) => Some(Symbol { name, demangled: None, module: None, start: Some(address), offset: 0 }),
                None => None,
            };
            let source = match (str_at(r, "file"), u64_at(r, "line")) {
                (Some(file), Some(line)) => Some(SourceLocation { file, line: line as u32, column: None }),
                _ => None,
            };
            let ghost ev0 = self.events@;
            let ghost rs0 = resolved@;
            self.events.push(DebugEvent::BreakpointResolved { breakpoint: id, address });
            resolved.push(ResolvedLocation { address, symbol, source });
            assert(resolved@.map_values(
                |r: ResolvedLocation| DebugEvent::BreakpointResolved { breakpoint: id, address: r.address },
            ) =~= rs0.map_values(
                |r: ResolvedLocation| DebugEvent::BreakpointResolved { breakpoint: id, address: r.address },
            ).push(DebugEvent::BreakpointResolved { breakpoint: id, address }));
            i = i + 1;
        }
        let cond = match condition {
            Some(c) => Some(c.to_owned()),
            None => None,
        };
        let bp = Breakpoint { id, location: location.dup(), enabled: true, hit_count: 0, condition: cond, resolved };
        let ghost b0 = self.breakpoints@;
        self.breakpoints.push(bp.dup());
        assert(bp_views(self.breakpoints@) =~= bp_views(b0).push(bp_view(bp)));
        bp
    }

    /// The process state a `process_info` reply gives; the lifecycle and
    /// architecture it reports are remembered.
    pub fn process_info_from(&mut self, v: &JsonValue) -> (p: ProcessInfo)
        ensures
            final(self).lifecycle == match str_field(*v, "state"@) {
                Some(s) => if s == "stopped"@ {
                    ProcessLifecycle::Stopped
                } else if s == "running"@ {
                    ProcessLifecycle::Running
                } else if s == "exited"@ {
                    ProcessLifecycle::Exited
                } else if s == "crashed"@ {
                    ProcessLifecycle::Crashed
                } else {
                    old(self).lifecycle
                },
                None => old(self).lifecycle,
            },
            final(self).arch == match str_field(*v, "arch"@) {
                Some(t) => arch_of_token(pieces(t, '-')[0]),
                None => old(self).arch,
            },
            *final(self) == (LldbState { lifecycle: final(self).lifecycle, arch: final(self).arch, ..*old(self) }),
            p == (ProcessInfo {
                pid: match u64_field(*v, "pid"@) {
                    Some(n) => Some(Pid(n as u32)),
                    None => None,
                },
                lifecycle: final(self).lifecycle,
                arch: final(self).arch,
                endianness: Endianness::Little,
                stop_reason: StopReason::NoReason,
                exit_code: old(self).exit_code,
            }),
    {
        let lifecycle = match str_at(v, "state") {
            Some(s) => {
                let c = chars_of(s.as_str());
                if is_word(c.as_slice(), "stopped") {
                    ProcessLifecycle::Stopped
                } else if is_word(c.as_slice(), "running") {
                    ProcessLifecycle::Running
                } else if is_word(c.as_slice(), "exited") {
                    ProcessLifecycle::Exited
                } else if is_word(c.as_slice(), "crashed") {
                    ProcessLifecycle::Crashed
                } else {
                    self.lifecycle
                }
            },
            None => self.lifecycle,
        };
        self.lifecycle = lifecycle;
        match str_at(v, "arch") {
            Some(t) => {
                self.arch = arch_from_triple(t.as_str());
            },
            None => {},
        }
        let pid = match u64_at(v, "pid") {
            Some(n) => Some(Pid(n as u32)),
            None => None,
        };
        ProcessInfo {
            pid,
            lifecycle,
            arch: self.arch,
            endianness: Endianness::Little,
            stop_reason: StopReason::NoReason,
            exit_code: self.exit_code,
        }
    }
}

/// What the LLDB backend can do. Pausing a running process is not among
/// it: the synchronous out-of-process driver cannot interrupt reliably.
pub fn lldb_capabilities() -> (c: Capabilities)
    ensures
        c == (Capabilities {
            launch: true,
            attach: true,
            core_files: false,
            detach: true,
            async_pause: false,
            step_instruction: true,
            step_source: true,
            breakpoints: true,
            conditional_breakpoints: true,
            watchpoints: false,
            read_memory: true,
            write_memory: false,
            disassemble: true,
            registers: true,
            jit_events: false,
            symbol_resolution: true,
            source_resolution: true,
        }),
{
    Capabilities {
        launch: true,
        attach: true,
        core_files: false,
        detach: true,
        async_pause: false,
        step_instruction: true,
        step_source: true,
        breakpoints: true,
        conditional_breakpoints: true,
        watchpoints: false,
        read_memory: true,
        write_memory: false,
        disassemble: true,
        registers: true,
        jit_events: false,
        symbol_resolution: true,
        source_resolution: true,
    }
}

/// The refusal of a pause request.
pub fn pause_refused() -> (e: BindError)
    ensures
        e matches BindError::CapabilityLimited(m)
            && m@ == "asynchronous pause is not supported by the out-of-process LLDB driver"@,
{
    BindError::CapabilityLimited("asynchronous pause is not supported by the out-of-process LLDB driver".to_owned())
}

/// The refusal of core-file debugging.
pub fn core_files_refused() -> (e: BindError)
    ensures
        e matches BindError::Unsupported(m) && m@ == "core-file debugging is not yet implemented by the LLDB backend"@,
{
    BindError::Unsupported("core-file debugging is not yet implemented by the LLDB backend".to_owned())
}

/// The python path `lldb -P` reports: its trimmed output when it succeeded
/// and printed something.
pub fn pythonpath_from(success: bool, stdout: &str) -> (r: Option<String>)
    ensures
        !success ==> r is None,
        success && trim(stdout@).len() == 0 ==> r is None,
        success && trim(stdout@).len() > 0 ==> (r matches Some(p) && p@ == trim(stdout@)),
{
    if !success {
        return None;
    }
    let c = chars_of(stdout);
    let t = trim_chars(c.as_slice());
    if t.len() == 0 {
        None
    } else {
        Some(string_of(t.as_slice()))
    }
}

/// Whether an LLDB scripting environment appears present, by the outcome
/// of `lldb -P`.
pub fn is_available(success: bool, stdout: &str) -> (b: bool)
    ensures
        b == (success && trim(stdout@).len() > 0),
{
    pythonpath_from(success, stdout).is_some()
}

/// The python to host the driver: the one `xcrun --find python3` printed,
/// else `python3` from the search path.
pub fn python_from(success: bool, stdout: &str) -> (r: String)
    ensures
        r@ == if success && trim(stdout@).len() > 0 { trim(stdout@) } else { "python3"@ },
{
    match pythonpath_from(success, stdout) {
        Some(p) => p,
        None => "python3".to_owned(),
    }
}

} // verus!
